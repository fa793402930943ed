//! Packages identified by name and version, and the dependency graph between them.
use vstd::prelude::*;

verus! {

/// A package as seen by conflict detection: its name and its version.
#[derive(Debug, Clone, PartialEq, Eq, Hash)]
pub struct Package {
    pub name: String,
    pub version: String,
}

impl View for Package {
    type V = (Seq<char>, Seq<char>);

    open spec fn view(&self) -> (Seq<char>, Seq<char>) {
        (self.name@, self.version@)
    }
}

/// The identities of a sequence of packages.
pub open spec fn kimlikler(v: Seq<Package>) -> Seq<(Seq<char>, Seq<char>)> {
    v.map_values(|p: Package| p@)
}

impl Package {
    pub fn new(name: String, version: String) -> (r: Package)
        ensures
            r@ == (name@, version@),
    {
        Package { name, version }
    }

    /// A copy with the same name and version.
    pub fn kopya(&self) -> (r: Package)
        ensures
            r@ == self@,
    {
        Package { name: self.name.clone(), version: self.version.clone() }
    }

    /// Same name and same version.
    pub fn ayni(&self, o: &Package) -> (r: bool)
        ensures
            r == (self@ == o@),
    {
        self.name == o.name && self.version == o.version
    }
}

/// Copies a list of packages.
pub fn liste_kopya(v: &Vec<Package>) -> (r: Vec<Package>)
    ensures
        kimlikler(r@) == kimlikler(v@),
{
    let mut r: Vec<Package> = Vec::new();
    let mut i: usize = 0;
    while i < v.len()
        invariant
            0 <= i <= v@.len(),
            kimlikler(r@) == kimlikler(v@).subrange(0, i as int),
        decreases v.len() - i,
    {
        let ghost once = kimlikler(r@);
        r.push(v[i].kopya());
        i += 1;
        proof {
            assert(kimlikler(r@) =~= once.push(v@[i - 1]@));
            assert(kimlikler(r@) =~= kimlikler(v@).subrange(0, i as int));
        }
    }
    assert(kimlikler(v@).subrange(0, i as int) =~= kimlikler(v@));
    r
}

/// Whether a package with the identity of `p` is in `v`.
pub fn listede(v: &Vec<Package>, p: &Package) -> (r: bool)
    ensures
        r == kimlikler(v@).contains(p@),
{
    let mut i: usize = 0;
    while i < v.len()
        invariant
            0 <= i <= v@.len(),
            forall|k: int| 0 <= k < i ==> v@[k]@ != p@,
        decreases v.len() - i,
    {
        if v[i].ayni(p) {
            assert(kimlikler(v@)[i as int] == p@);
            return true;
        }
        i += 1;
    }
    assert forall|k: int| 0 <= k < kimlikler(v@).len() implies kimlikler(v@)[k] != p@ by {
        assert(kimlikler(v@)[k] == v@[k]@);
    }
    false
}

/// The dependency graph: for each package, the packages it requires. A later entry for the
/// same package replaces an earlier one.
#[derive(Debug, Clone, PartialEq, Eq)]
pub struct Dependencies {
    pub girdiler: Vec<(Package, Vec<Package>)>,
}

impl View for Dependencies {
    type V = Seq<((Seq<char>, Seq<char>), Seq<(Seq<char>, Seq<char>)>)>;

    open spec fn view(&self) -> Self::V {
        self.girdiler@.map_values(|e: (Package, Vec<Package>)| (e.0@, kimlikler(e.1@)))
    }
}

/// The index of the entry for `k`, or -1.
pub open spec fn konum(
    g: Seq<((Seq<char>, Seq<char>), Seq<(Seq<char>, Seq<char>)>)>,
    k: (Seq<char>, Seq<char>),
) -> int
    decreases g.len(),
{
    if g.len() == 0 {
        -1
    } else if g.last().0 == k {
        g.len() - 1
    } else {
        konum(g.drop_last(), k)
    }
}

/// The packages that `k` requires; none where `k` has no entry.
pub open spec fn gereken(
    g: Seq<((Seq<char>, Seq<char>), Seq<(Seq<char>, Seq<char>)>)>,
    k: (Seq<char>, Seq<char>),
) -> Seq<(Seq<char>, Seq<char>)> {
    if konum(g, k) >= 0 {
        g[konum(g, k)].1
    } else {
        Seq::empty()
    }
}

/// The graph as a neighbour function.
pub open spec fn komsu(g: Seq<((Seq<char>, Seq<char>), Seq<(Seq<char>, Seq<char>)>)>) -> spec_fn(
    (Seq<char>, Seq<char>),
) -> Seq<(Seq<char>, Seq<char>)> {
    |k: (Seq<char>, Seq<char>)| gereken(g, k)
}

/// The keys of the graph, in order.
pub open spec fn anahtarlar(g: Seq<((Seq<char>, Seq<char>), Seq<(Seq<char>, Seq<char>)>)>) -> Seq<
    (Seq<char>, Seq<char>),
> {
    g.map_values(|e: ((Seq<char>, Seq<char>), Seq<(Seq<char>, Seq<char>)>)| e.0)
}

pub proof fn lemma_konum(
    g: Seq<((Seq<char>, Seq<char>), Seq<(Seq<char>, Seq<char>)>)>,
    k: (Seq<char>, Seq<char>),
)
    ensures
        -1 <= konum(g, k) < g.len(),
        konum(g, k) >= 0 ==> g[konum(g, k)].0 == k,
        konum(g, k) == -1 ==> forall|i: int| 0 <= i < g.len() ==> g[i].0 != k,
        konum(g, k) >= 0 ==> forall|i: int| konum(g, k) < i < g.len() ==> g[i].0 != k,
    decreases g.len(),
{
    if g.len() > 0 && g.last().0 != k {
        lemma_konum(g.drop_last(), k);
        assert forall|i: int| 0 <= i < g.len() - 1 implies g[i] == g.drop_last()[i] by {}
    }
}

impl Dependencies {
    pub fn new() -> (r: Dependencies)
        ensures
            r@ == Seq::<((Seq<char>, Seq<char>), Seq<(Seq<char>, Seq<char>)>)>::empty(),
    {
        Dependencies { girdiler: Vec::new() }
    }

    /// The index of the entry for `p`.
    pub fn bul(&self, p: &Package) -> (r: Option<usize>)
        ensures
            match r {
                Some(i) => i as int == konum(self@, p@) && i < self@.len(),
                None => konum(self@, p@) == -1,
            },
    {
        proof {
            lemma_konum(self@, p@);
        }
        let mut i: usize = self.girdiler.len();
        while i > 0
            invariant
                0 <= i <= self@.len(),
                self@.len() == self.girdiler@.len(),
                forall|k: int| i <= k < self@.len() ==> self@[k].0 != p@,
                -1 <= konum(self@, p@) < self@.len(),
                konum(self@, p@) >= 0 ==> self@[konum(self@, p@)].0 == p@,
                konum(self@, p@) >= 0 ==> forall|j: int|
                    konum(self@, p@) < j < self@.len() ==> self@[j].0 != p@,
                konum(self@, p@) == -1 ==> forall|j: int| 0 <= j < self@.len() ==> self@[j].0 != p@,
            decreases i,
        {
            i -= 1;
            assert(self@[i as int].0 == self.girdiler@[i as int].0@);
            if self.girdiler[i].0.ayni(p) {
                return Some(i);
            }
        }
        None
    }

    /// Sets the packages that `p` requires, replacing an earlier entry for `p`.
    pub fn insert(&mut self, p: Package, gerekenler: Vec<Package>)
        ensures
            komsu(final(self)@)(p@) == kimlikler(gerekenler@),
            forall|k: (Seq<char>, Seq<char>)| k != p@ ==> #[trigger] gereken(final(self)@, k) == gereken(old(self)@, k),
            konum(old(self)@, p@) >= 0 ==> final(self)@ == old(self)@.update(
                konum(old(self)@, p@),
                (p@, kimlikler(gerekenler@)),
            ),
            konum(old(self)@, p@) == -1 ==> final(self)@ == old(self)@.push((p@, kimlikler(gerekenler@))),
    {
        let ghost eski = self@;
        let ghost yeni_girdi = (p@, kimlikler(gerekenler@));
        proof {
            lemma_konum(eski, p@);
        }
        match self.bul(&p) {
            Some(i) => {
                self.girdiler.set(i, (p, gerekenler));
                proof {
                    assert(self@ =~= eski.update(i as int, yeni_girdi));
                    lemma_konum(self@, p@);
                    assert(konum(self@, p@) == i) by {
                        lemma_konum_tek(self@, p@, i as int);
                    }
                    assert forall|k: (Seq<char>, Seq<char>)| k != p@ implies #[trigger] gereken(self@, k) == gereken(eski, k) by {
                        lemma_konum_guncelle(eski, i as int, yeni_girdi, k);
                        lemma_konum(eski, k);
                        if konum(eski, k) >= 0 {
                            assert(konum(eski, k) != i);
                            assert(self@[konum(eski, k)] == eski[konum(eski, k)]);
                        }
                    }
                }
            },
            None => {
                self.girdiler.push((p, gerekenler));
                proof {
                    assert(self@ =~= eski.push(yeni_girdi));
                    assert(self@.drop_last() =~= eski);
                    assert forall|k: (Seq<char>, Seq<char>)| k != p@ implies #[trigger] gereken(self@, k) == gereken(eski, k) by {
                        lemma_konum(eski, k);
                        if konum(eski, k) >= 0 {
                            assert(self@[konum(eski, k)] == eski[konum(eski, k)]);
                        }
                    }
                }
            },
        }
    }

    /// The packages that `p` requires, if `p` has an entry.
    pub fn get(&self, p: &Package) -> (r: Option<&Vec<Package>>)
        ensures
            match r {
                Some(v) => konum(self@, p@) >= 0 && kimlikler(v@) == gereken(self@, p@),
                None => konum(self@, p@) == -1,
            },
    {
        match self.bul(p) {
            Some(i) => {
                assert(self@[i as int] == (self.girdiler@[i as int].0@, kimlikler(self.girdiler@[i as int].1@)));
                Some(&self.girdiler[i].1)
            },
            None => None,
        }
    }

    pub fn contains_key(&self, p: &Package) -> (r: bool)
        ensures
            r == (konum(self@, p@) >= 0),
    {
        self.bul(p).is_some()
    }

    pub fn len(&self) -> (r: usize)
        ensures
            r == self@.len(),
    {
        self.girdiler.len()
    }

    /// An entry-by-entry copy.
    pub fn kopya(&self) -> (r: Dependencies)
        ensures
            r@ == self@,
    {
        let mut girdiler: Vec<(Package, Vec<Package>)> = Vec::new();
        let mut i: usize = 0;
        while i < self.girdiler.len()
            invariant
                0 <= i <= self.girdiler@.len(),
                (Dependencies { girdiler: girdiler })@ == self@.subrange(0, i as int),
            decreases self.girdiler.len() - i,
        {
            let ghost once = (Dependencies { girdiler: girdiler })@;
            let anahtar = self.girdiler[i].0.kopya();
            let liste = liste_kopya(&self.girdiler[i].1);
            girdiler.push((anahtar, liste));
            i += 1;
            proof {
                assert((Dependencies { girdiler: girdiler })@ =~= once.push(self@[i - 1]));
                assert((Dependencies { girdiler: girdiler })@ =~= self@.subrange(0, i as int));
            }
        }
        proof {
            assert(self@.subrange(0, i as int) =~= self@);
        }
        Dependencies { girdiler }
    }
}

proof fn lemma_konum_tek(
    g: Seq<((Seq<char>, Seq<char>), Seq<(Seq<char>, Seq<char>)>)>,
    k: (Seq<char>, Seq<char>),
    i: int,
)
    requires
        0 <= i < g.len(),
        g[i].0 == k,
        forall|j: int| i < j < g.len() ==> g[j].0 != k,
    ensures
        konum(g, k) == i,
    decreases g.len(),
{
    if g.last().0 != k {
        lemma_konum_tek(g.drop_last(), k, i);
    }
}

proof fn lemma_konum_guncelle(
    g: Seq<((Seq<char>, Seq<char>), Seq<(Seq<char>, Seq<char>)>)>,
    i: int,
    e: ((Seq<char>, Seq<char>), Seq<(Seq<char>, Seq<char>)>),
    k: (Seq<char>, Seq<char>),
)
    requires
        0 <= i < g.len(),
        g[i].0 == e.0,
        k != e.0,
    ensures
        konum(g.update(i, e), k) == konum(g, k),
    decreases g.len(),
{
    let h = g.update(i, e);
    if g.len() > 0 {
        if i == g.len() - 1 {
            assert(h.drop_last() =~= g.drop_last());
        } else {
            assert(h.last() == g.last());
            if g.last().0 != k {
                lemma_konum_guncelle(g.drop_last(), i, e, k);
                assert(h.drop_last() =~= g.drop_last().update(i, e));
            }
        }
    }
}

} // verus!
