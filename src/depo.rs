//! Repositories, the repository index, the installer's paths and the configuration record.
use vstd::prelude::*;
use vstd::string::*;
use crate::arsiv::{birlestir, birlestir_yol};
use crate::metin::gorunumler;
use crate::paket::{paket_gorunumu, paketleri_kopyala, Paket};

verus! {

/// `a`, a slash, then `b`.
pub fn egik_cizgiyle(a: &str, b: &str) -> (r: String)
    ensures
        r@ == a@ + seq!['/'] + b@,
{
    let mut r = a.to_owned();
    r.append("/");
    proof {
        reveal_strlit("/");
    }
    r.append(b);
    r
}

/// Two package lists hold the same packages in the same order.
pub open spec fn ayni_paketler(a: Seq<Paket>, b: Seq<Paket>) -> bool {
    a.len() == b.len() && forall|i: int| 0 <= i < a.len() ==> paket_gorunumu(#[trigger] a[i]) == paket_gorunumu(b[i])
}

/// Entry `i` is the first package named `ad`.
pub open spec fn ilk_adli(c: Seq<Paket>, ad: Seq<char>, i: int) -> bool {
    0 <= i < c.len() && c[i].ad@ == ad && forall|j: int| 0 <= j < i ==> c[j].ad@ != ad
}

/// The repository of package lists, with the list kept once it was obtained.
pub struct DepoYoneticisi {
    pub depo_url: String,
    pub yerel_depo_yolu: String,
    paket_listesi_cache: Option<Vec<Paket>>,
}

impl DepoYoneticisi {
    pub closed spec fn adres(&self) -> Seq<char> {
        self.depo_url@
    }

    pub closed spec fn yerel_yol(&self) -> Seq<char> {
        self.yerel_depo_yolu@
    }

    /// The kept package list, if any.
    pub closed spec fn onbellek(&self) -> Option<Seq<Paket>> {
        match self.paket_listesi_cache {
            Some(v) => Some(v@),
            None => None,
        }
    }

    pub fn yeni(depo_url: String, yerel_depo_yolu: String) -> (r: DepoYoneticisi)
        ensures
            r.adres() == depo_url@,
            r.yerel_yol() == yerel_depo_yolu@,
            r.onbellek() is None,
    {
        DepoYoneticisi { depo_url, yerel_depo_yolu, paket_listesi_cache: None }
    }

    /// Whether the package list is already kept, so that nothing needs to be fetched.
    pub fn onbellekte_var(&self) -> (r: bool)
        ensures
            r == self.onbellek() is Some,
    {
        self.paket_listesi_cache.is_some()
    }

    /// The package list: the kept one when there is one, otherwise `getirilen`, which is kept
    /// from now on.
    pub fn paket_listesini_indir(&mut self, getirilen: Vec<Paket>) -> (r: Vec<Paket>)
        ensures
            final(self).adres() == old(self).adres(),
            final(self).yerel_yol() == old(self).yerel_yol(),
            old(self).onbellek() matches Some(c) ==> final(self).onbellek() == old(self).onbellek() && ayni_paketler(r@, c),
            old(self).onbellek() is None ==> final(self).onbellek() == Some(getirilen@) && ayni_paketler(r@, getirilen@),
    {
        match &self.paket_listesi_cache {
            Some(c) => {
                return paketleri_kopyala(c);
            },
            None => {},
        }
        let r = paketleri_kopyala(&getirilen);
        self.paket_listesi_cache = Some(getirilen);
        r
    }

    /// The first kept package named `paket_adi`.
    pub fn paket_ara(&self, paket_adi: &str) -> (r: Option<Paket>)
        ensures
            r matches Some(p) ==> self.onbellek() is Some && exists|i: int|
                #[trigger] ilk_adli(self.onbellek()->Some_0, paket_adi@, i) && paket_gorunumu(p)
                    == paket_gorunumu(self.onbellek()->Some_0[i]),
            r is None ==> (self.onbellek() matches Some(c) ==> forall|j: int| 0 <= j < c.len() ==> c[j].ad@ != paket_adi@),
    {
        match &self.paket_listesi_cache {
            None => None,
            Some(c) => {
                let aranan = paket_adi.to_owned();
                let mut i: usize = 0;
                while i < c.len()
                    invariant
                        self.onbellek() == Some(c@),
                        aranan@ == paket_adi@,
                        0 <= i <= c@.len(),
                        forall|j: int| 0 <= j < i ==> c@[j].ad@ != paket_adi@,
                    decreases c.len() - i,
                {
                    if c[i].ad == aranan {
                        let p = c[i].kopya();
                        assert(paket_gorunumu(p) == paket_gorunumu(c@[i as int]));
                        assert(ilk_adli(c@, paket_adi@, i as int));
                        return Some(p);
                    }
                    i += 1;
                }
                None
            },
        }
    }
}

/// Where packages come from and where they are installed.
pub struct KurulumYoneticisi {
    pub paket_deposu_yolu: String,
    pub kurulum_dizini: String,
}

impl KurulumYoneticisi {
    pub fn yeni(paket_deposu_yolu: String, kurulum_dizini: String) -> (r: KurulumYoneticisi)
        ensures
            r.paket_deposu_yolu@ == paket_deposu_yolu@,
            r.kurulum_dizini@ == kurulum_dizini@,
    {
        KurulumYoneticisi { paket_deposu_yolu, kurulum_dizini }
    }

    /// The artifact file of the package inside the package store, when the package names one.
    pub fn paket_dosyasi_yolu(&self, paket: &Paket) -> (r: Option<String>)
        ensures
            paket.dosya_adi matches Some(d) ==> r matches Some(y) && y@ == self.paket_deposu_yolu@ + seq!['/'] + d@,
            paket.dosya_adi is None ==> r is None,
    {
        match &paket.dosya_adi {
            Some(d) => Some(egik_cizgiyle(self.paket_deposu_yolu.as_str(), d.as_str())),
            None => None,
        }
    }
}

/// A remote repository reached by URL.
pub struct RemoteRepository {
    url: String,
}

impl RemoteRepository {
    pub closed spec fn adres(&self) -> Seq<char> {
        self.url@
    }

    pub fn new(url: String) -> (r: RemoteRepository)
        ensures
            r.adres() == url@,
    {
        RemoteRepository { url }
    }

    /// `<url>/<name>/<version>/<name>`.
    pub fn get_package_url(&self, package_name: &str, version: &str) -> (r: String)
        ensures
            r@ == self.adres() + seq!['/'] + package_name@ + seq!['/'] + version@ + seq!['/'] + package_name@,
    {
        let a = egik_cizgiyle(self.url.as_str(), package_name);
        let b = egik_cizgiyle(a.as_str(), version);
        egik_cizgiyle(b.as_str(), package_name)
    }
}

/// The answer of a fetch: status code and body.
pub struct HttpResponse {
    pub status_code: u32,
    pub body: Vec<u8>,
}

/// A repository in a local directory: `<path>/<name>/<version>/` holds a package's files.
pub struct LocalRepository {
    path: String,
}

impl LocalRepository {
    pub closed spec fn kok(&self) -> Seq<char> {
        self.path@
    }

    pub fn new(path: String) -> (r: LocalRepository)
        ensures
            r.kok() == path@,
    {
        LocalRepository { path }
    }

    /// The directory of one version of one package.
    pub fn paket_dizini(&self, package_name: &str, version: &str) -> (r: String)
        ensures
            r@ == birlestir(birlestir(self.kok(), package_name@), version@),
    {
        let a = birlestir_yol(self.path.as_str(), package_name);
        birlestir_yol(a.as_str(), version)
    }
}

/// The settings read from the configuration file.
pub struct Yapilandirma {
    pub depo_url: String,
    pub yerel_depo_yolu: String,
    pub kurulum_dizini: String,
    pub onbellek_dizini: String,
}

impl Yapilandirma {
    pub fn yeni(depo_url: String, yerel_depo_yolu: String, kurulum_dizini: String, onbellek_dizini: String) -> (r: Yapilandirma)
        ensures
            r.depo_url@ == depo_url@,
            r.yerel_depo_yolu@ == yerel_depo_yolu@,
            r.kurulum_dizini@ == kurulum_dizini@,
            r.onbellek_dizini@ == onbellek_dizini@,
    {
        Yapilandirma { depo_url, yerel_depo_yolu, kurulum_dizini, onbellek_dizini }
    }
}

/// The index file of a repository: `index.json` inside it.
pub fn get_index_path(repo_path: &str) -> (r: String)
    ensures
        r@ == birlestir(repo_path@, "index.json"@),
{
    birlestir_yol(repo_path, "index.json")
}

/// The index entry of `ad`, or -1.
pub open spec fn indeks_konumu(s: Seq<(Seq<char>, Seq<Seq<char>>)>, ad: Seq<char>) -> int
    decreases s.len(),
{
    if s.len() == 0 {
        -1
    } else if s.last().0 == ad {
        s.len() - 1
    } else {
        indeks_konumu(s.drop_last(), ad)
    }
}

proof fn lemma_indeks_konumu(s: Seq<(Seq<char>, Seq<Seq<char>>)>, ad: Seq<char>)
    ensures
        -1 <= indeks_konumu(s, ad) < s.len(),
        indeks_konumu(s, ad) >= 0 ==> s[indeks_konumu(s, ad)].0 == ad,
        indeks_konumu(s, ad) == -1 ==> forall|i: int| 0 <= i < s.len() ==> s[i].0 != ad,
    decreases s.len(),
{
    if s.len() > 0 && s.last().0 != ad {
        lemma_indeks_konumu(s.drop_last(), ad);
        assert forall|i: int| 0 <= i < s.len() - 1 implies s[i] == s.drop_last()[i] by {}
    }
}

proof fn lemma_indeks_tek(s: Seq<(Seq<char>, Seq<Seq<char>>)>, ad: Seq<char>, i: int)
    requires
        0 <= i < s.len(),
        s[i].0 == ad,
        forall|a: int, b: int| 0 <= a < b < s.len() ==> s[a].0 != s[b].0,
    ensures
        indeks_konumu(s, ad) == i,
    decreases s.len(),
{
    if s.last().0 != ad {
        assert(i < s.len() - 1);
        lemma_indeks_tek(s.drop_last(), ad, i);
    }
}

/// The repository index: for each package name, its versions in the order they were added.
#[derive(Debug, Clone, PartialEq, Eq)]
pub struct PackageIndex {
    packages: Vec<(String, Vec<String>)>,
}

impl PackageIndex {
    /// Each name with its versions.
    pub closed spec fn girdiler(&self) -> Seq<(Seq<char>, Seq<Seq<char>>)> {
        self.packages@.map_values(|e: (String, Vec<String>)| (e.0@, gorunumler(e.1@)))
    }

    /// No name has two entries.
    pub open spec fn wf(&self) -> bool {
        forall|a: int, b: int| 0 <= a < b < self.girdiler().len() ==> self.girdiler()[a].0 != self.girdiler()[b].0
    }

    /// The versions recorded for `ad`, if it has an entry.
    pub open spec fn surumler(&self, ad: Seq<char>) -> Option<Seq<Seq<char>>> {
        if indeks_konumu(self.girdiler(), ad) >= 0 {
            Some(self.girdiler()[indeks_konumu(self.girdiler(), ad)].1)
        } else {
            None
        }
    }

    /// An empty index.
    pub fn new() -> (r: PackageIndex)
        ensures
            r.wf(),
            r.girdiler().len() == 0,
    {
        PackageIndex { packages: Vec::new() }
    }

    fn bul(&self, ad: &str) -> (r: Option<usize>)
        ensures
            match r {
                Some(i) => i as int == indeks_konumu(self.girdiler(), ad@) && i < self.girdiler().len(),
                None => indeks_konumu(self.girdiler(), ad@) == -1,
            },
    {
        proof {
            lemma_indeks_konumu(self.girdiler(), ad@);
        }
        let aranan = ad.to_owned();
        let mut i: usize = self.packages.len();
        while i > 0
            invariant
                aranan@ == ad@,
                0 <= i <= self.girdiler().len(),
                self.girdiler().len() == self.packages@.len(),
                forall|k: int| i <= k < self.girdiler().len() ==> self.girdiler()[k].0 != ad@,
                -1 <= indeks_konumu(self.girdiler(), ad@) < self.girdiler().len(),
                indeks_konumu(self.girdiler(), ad@) >= 0 ==> self.girdiler()[indeks_konumu(self.girdiler(), ad@)].0 == ad@,
                indeks_konumu(self.girdiler(), ad@) == -1 ==> forall|k: int| 0 <= k < self.girdiler().len() ==> self.girdiler()[k].0 != ad@,
            decreases i,
        {
            i -= 1;
            assert(self.girdiler()[i as int].0 == self.packages@[i as int].0@);
            if self.packages[i].0 == aranan {
                proof {
                    let s = self.girdiler();
                    if indeks_konumu(s, ad@) != i {
                        assert(indeks_konumu(s, ad@) < i);
                        lemma_indeks_sonuncu(s, ad@, i as int);
                    }
                }
                return Some(i);
            }
        }
        None
    }

    /// Records one more version of `package_name`, duplicates included.
    pub fn add_package(&mut self, package_name: &str, version: &str)
        requires
            old(self).wf(),
        ensures
            final(self).wf(),
            old(self).surumler(package_name@) matches Some(v) ==> final(self).surumler(package_name@) == Some(v.push(version@)),
            old(self).surumler(package_name@) is None ==> final(self).surumler(package_name@) == Some(seq![version@]),
            forall|ad: Seq<char>| ad != package_name@ ==> #[trigger] final(self).surumler(ad) == old(self).surumler(ad),
    {
        let ghost eski = self.girdiler();
        proof {
            lemma_indeks_konumu(eski, package_name@);
        }
        match self.bul(package_name) {
            Some(i) => {
                let (ad, mut surumler) = self.packages.remove(i);
                surumler.push(version.to_owned());
                self.packages.insert(i, (ad, surumler));
                proof {
                    let s = self.girdiler();
                    let e = (package_name@, eski[i as int].1.push(version@));
                    assert(gorunumler(self.packages@[i as int].1@) =~= eski[i as int].1.push(version@));
                    assert(s =~= eski.update(i as int, e));
                    assert forall|a: int, b: int| 0 <= a < b < s.len() implies s[a].0 != s[b].0 by {
                        assert(s[a].0 == eski[a].0 && s[b].0 == eski[b].0);
                    }
                    lemma_indeks_tek(s, package_name@, i as int);
                    assert forall|ad: Seq<char>| ad != package_name@ implies #[trigger] self.surumler(ad) == old(self).surumler(ad) by {
                        lemma_indeks_konumu(eski, ad);
                        lemma_indeks_konumu(s, ad);
                        if indeks_konumu(eski, ad) >= 0 {
                            lemma_indeks_tek(s, ad, indeks_konumu(eski, ad));
                        } else if indeks_konumu(s, ad) >= 0 {
                            assert(s[indeks_konumu(s, ad)].0 == eski[indeks_konumu(s, ad)].0);
                        }
                    }
                }
            },
            None => {
                let mut v: Vec<String> = Vec::new();
                v.push(version.to_owned());
                self.packages.push((package_name.to_owned(), v));
                proof {
                    let s = self.girdiler();
                    assert(gorunumler(v@) =~= seq![version@]);
                    assert(s =~= eski.push((package_name@, seq![version@])));
                    assert forall|a: int, b: int| 0 <= a < b < s.len() implies s[a].0 != s[b].0 by {
                        if b < eski.len() {
                            assert(s[a].0 == eski[a].0 && s[b].0 == eski[b].0);
                        } else {
                            assert(s[a].0 == eski[a].0);
                        }
                    }
                    lemma_indeks_tek(s, package_name@, eski.len() as int);
                    assert forall|ad: Seq<char>| ad != package_name@ implies #[trigger] self.surumler(ad) == old(self).surumler(ad) by {
                        lemma_indeks_konumu(eski, ad);
                        lemma_indeks_konumu(s, ad);
                        if indeks_konumu(eski, ad) >= 0 {
                            lemma_indeks_tek(s, ad, indeks_konumu(eski, ad));
                        } else if indeks_konumu(s, ad) >= 0 {
                            assert(s[indeks_konumu(s, ad)].0 == eski[indeks_konumu(s, ad)].0);
                        }
                    }
                }
            },
        }
    }

    pub fn has_package(&self, package_name: &str) -> (r: bool)
        ensures
            r == self.surumler(package_name@) is Some,
    {
        self.bul(package_name).is_some()
    }

    pub fn get_versions(&self, package_name: &str) -> (r: Option<&Vec<String>>)
        ensures
            match r {
                Some(v) => self.surumler(package_name@) == Some(gorunumler(v@)),
                None => self.surumler(package_name@) is None,
            },
    {
        match self.bul(package_name) {
            Some(i) => {
                assert(self.girdiler()[i as int] == (self.packages@[i as int].0@, gorunumler(self.packages@[i as int].1@)));
                Some(&self.packages[i].1)
            },
            None => None,
        }
    }

    /// The entries, for writing the index out.
    pub fn paketler(&self) -> (r: &Vec<(String, Vec<String>)>)
        ensures
            r@.map_values(|e: (String, Vec<String>)| (e.0@, gorunumler(e.1@))) == self.girdiler(),
    {
        &self.packages
    }
}

proof fn lemma_indeks_sonuncu(s: Seq<(Seq<char>, Seq<Seq<char>>)>, ad: Seq<char>, i: int)
    requires
        0 <= i < s.len(),
        s[i].0 == ad,
        forall|k: int| i < k < s.len() ==> s[k].0 != ad,
    ensures
        indeks_konumu(s, ad) == i,
    decreases s.len(),
{
    if s.last().0 != ad {
        lemma_indeks_sonuncu(s.drop_last(), ad, i);
    }
}

} // verus!
