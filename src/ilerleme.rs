//! A progress bar: its state, and what one drawing of it shows. Rendering the text and the
//! elapsed time is left to the caller.
use vstd::prelude::*;
use vstd::string::*;

verus! {

/// What one drawing of the bar shows.
#[derive(Debug, Clone, PartialEq, Eq)]
pub struct Cizim {
    /// The message followed by ": ", or nothing when there is no message.
    pub mesaj: String,
    pub dolu_karakter: char,
    pub dolu_sayisi: usize,
    pub bos_karakter: char,
    pub bos_sayisi: usize,
    /// The whole percentage, when it is shown.
    pub yuzde: Option<usize>,
    /// Whether the elapsed time is shown.
    pub sure_goster: bool,
}

/// The percentage of `total` that `current` is, rounded down; 0 when `total` is 0.
pub open spec fn yuzde_degeri(current: nat, total: nat) -> nat {
    if total == 0 {
        0
    } else {
        current * 100 / total
    }
}

/// How many of `width` cells are filled: the part of `width` that `current` is of `total`,
/// rounded down and at most `width`; none when `total` is 0.
pub open spec fn dolu_degeri(current: nat, total: nat, width: nat) -> nat {
    if total == 0 {
        0
    } else if width * current / total > width {
        width
    } else {
        width * current / total
    }
}

/// The number, or the largest `usize` when it does not fit.
pub open spec fn sinirli(n: nat) -> usize {
    if n > usize::MAX {
        usize::MAX
    } else {
        n as usize
    }
}

pub struct ProgressBar {
    total: usize,
    current: usize,
    width: usize,
    message: String,
    filled_char: char,
    empty_char: char,
    show_percentage: bool,
    show_time: bool,
}

impl ProgressBar {
    pub closed spec fn toplam(&self) -> nat {
        self.total as nat
    }

    pub closed spec fn mevcut(&self) -> nat {
        self.current as nat
    }

    pub closed spec fn genislik(&self) -> nat {
        self.width as nat
    }

    pub closed spec fn ileti(&self) -> Seq<char> {
        self.message@
    }

    pub closed spec fn karakterler(&self) -> (char, char) {
        (self.filled_char, self.empty_char)
    }

    pub closed spec fn gosterilenler(&self) -> (bool, bool) {
        (self.show_percentage, self.show_time)
    }

    /// A bar of `width` cells for `total` units: `#` for done, space for the rest, the
    /// percentage shown and the time not.
    pub fn new(total: usize, width: usize) -> (r: ProgressBar)
        ensures
            r.toplam() == total,
            r.mevcut() == 0,
            r.genislik() == width,
            r.ileti().len() == 0,
            r.karakterler() == ('#', ' '),
            r.gosterilenler() == (true, false),
    {
        ProgressBar {
            total,
            current: 0,
            width,
            message: String::new(),
            filled_char: '#',
            empty_char: ' ',
            show_percentage: true,
            show_time: false,
        }
    }

    pub fn with_config(
        total: usize,
        width: usize,
        filled_char: char,
        empty_char: char,
        show_percentage: bool,
        show_time: bool,
    ) -> (r: ProgressBar)
        ensures
            r.toplam() == total,
            r.mevcut() == 0,
            r.genislik() == width,
            r.ileti().len() == 0,
            r.karakterler() == (filled_char, empty_char),
            r.gosterilenler() == (show_percentage, show_time),
    {
        ProgressBar {
            total,
            current: 0,
            width,
            message: String::new(),
            filled_char,
            empty_char,
            show_percentage,
            show_time,
        }
    }

    /// Advances the progress by `increment`.
    pub fn update(&mut self, increment: usize)
        requires
            old(self).mevcut() + increment <= usize::MAX,
        ensures
            final(self).mevcut() == old(self).mevcut() + increment,
            final(self).toplam() == old(self).toplam(),
            final(self).genislik() == old(self).genislik(),
            final(self).ileti() == old(self).ileti(),
            final(self).karakterler() == old(self).karakterler(),
            final(self).gosterilenler() == old(self).gosterilenler(),
    {
        self.current = self.current + increment;
    }

    /// Sets the progress.
    pub fn set_current(&mut self, current: usize)
        ensures
            final(self).mevcut() == current,
            final(self).toplam() == old(self).toplam(),
            final(self).genislik() == old(self).genislik(),
            final(self).ileti() == old(self).ileti(),
            final(self).karakterler() == old(self).karakterler(),
            final(self).gosterilenler() == old(self).gosterilenler(),
    {
        self.current = current;
    }

    pub fn set_message(&mut self, message: &str)
        ensures
            final(self).ileti() == message@,
            final(self).mevcut() == old(self).mevcut(),
            final(self).toplam() == old(self).toplam(),
            final(self).genislik() == old(self).genislik(),
            final(self).karakterler() == old(self).karakterler(),
            final(self).gosterilenler() == old(self).gosterilenler(),
    {
        self.message = message.to_owned();
    }

    /// What the bar shows now.
    pub fn draw(&self) -> (r: Cizim)
        ensures
            r.dolu_sayisi == dolu_degeri(self.mevcut(), self.toplam(), self.genislik()),
            r.dolu_sayisi + r.bos_sayisi == self.genislik(),
            (r.dolu_karakter, r.bos_karakter) == self.karakterler(),
            self.gosterilenler().0 ==> r.yuzde == Some(sinirli(yuzde_degeri(self.mevcut(), self.toplam()))),
            !self.gosterilenler().0 ==> r.yuzde is None,
            r.sure_goster == self.gosterilenler().1,
            self.ileti().len() == 0 ==> r.mesaj@.len() == 0,
            self.ileti().len() > 0 ==> r.mesaj@ == self.ileti() + seq![':', ' '],
    {
        let dolu: usize = if self.total == 0 {
            0
        } else {
            let w: u128 = self.width as u128;
            let c: u128 = self.current as u128;
            proof {
                assert(w * c < 0x1_0000_0000_0000_0000_0000_0000_0000_0000) by (nonlinear_arith)
                    requires
                        w < 0x1_0000_0000_0000_0000,
                        c < 0x1_0000_0000_0000_0000,
                ;
            }
            let f: u128 = w * c / (self.total as u128);
            if f > self.width as u128 {
                self.width
            } else {
                f as usize
            }
        };
        let yuzde = if self.show_percentage {
            let y: u128 = if self.total == 0 {
                0
            } else {
                (self.current as u128) * 100 / (self.total as u128)
            };
            if y > usize::MAX as u128 {
                Some(usize::MAX)
            } else {
                Some(y as usize)
            }
        } else {
            None
        };
        let mut mesaj = String::new();
        if self.message.unicode_len() > 0 {
            mesaj = self.message.clone();
            mesaj.append(": ");
            proof {
                reveal_strlit(": ");
            }
        }
        Cizim {
            mesaj,
            dolu_karakter: self.filled_char,
            dolu_sayisi: dolu,
            bos_karakter: self.empty_char,
            bos_sayisi: self.width - dolu,
            yuzde,
            sure_goster: self.show_time,
        }
    }

    /// The text that ends the bar's line.
    pub fn finish(&self) -> (r: String)
        ensures
            r@ == seq!['\n'],
    {
        let r = String::from_str("\n");
        proof {
            reveal_strlit("\n");
        }
        r
    }
}

} // verus!
