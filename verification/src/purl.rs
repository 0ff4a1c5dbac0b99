//! Package-URL rows and their creator: collects package URLs as plain
//! coordinate values, deduplicates them, and derives the unique
//! package, package-version and qualified-package rows that one store
//! write per row would persist. The write itself is the relational
//! store's work.

use vstd::prelude::*;

verus! {

/// A package URL in coordinate form.
#[derive(Debug, PartialEq, Eq)]
pub struct Purl {
    pub ty: String,
    pub namespace: String,
    pub name: String,
    pub version: String,
    pub qualifiers: String,
}

#[verifier::ext_equal]
pub struct PurlView {
    pub ty: Seq<char>,
    pub namespace: Seq<char>,
    pub name: Seq<char>,
    pub version: Seq<char>,
    pub qualifiers: Seq<char>,
}

impl View for Purl {
    type V = PurlView;

    open spec fn view(&self) -> PurlView {
        PurlView {
            ty: self.ty@,
            namespace: self.namespace@,
            name: self.name@,
            version: self.version@,
            qualifiers: self.qualifiers@,
        }
    }
}

/// One row of the package table: the versionless coordinates.
#[derive(Debug, PartialEq, Eq)]
pub struct PackageRow {
    pub ty: String,
    pub namespace: String,
    pub name: String,
}

#[verifier::ext_equal]
pub struct PackageRowView {
    pub ty: Seq<char>,
    pub namespace: Seq<char>,
    pub name: Seq<char>,
}

impl View for PackageRow {
    type V = PackageRowView;

    open spec fn view(&self) -> PackageRowView {
        PackageRowView { ty: self.ty@, namespace: self.namespace@, name: self.name@ }
    }
}

/// One row of the package-version table.
#[derive(Debug, PartialEq, Eq)]
pub struct VersionRow {
    pub ty: String,
    pub namespace: String,
    pub name: String,
    pub version: String,
}

#[verifier::ext_equal]
pub struct VersionRowView {
    pub ty: Seq<char>,
    pub namespace: Seq<char>,
    pub name: Seq<char>,
    pub version: Seq<char>,
}

impl View for VersionRow {
    type V = VersionRowView;

    open spec fn view(&self) -> VersionRowView {
        VersionRowView {
            ty: self.ty@,
            namespace: self.namespace@,
            name: self.name@,
            version: self.version@,
        }
    }
}

pub open spec fn package_of(p: PurlView) -> PackageRowView {
    PackageRowView { ty: p.ty, namespace: p.namespace, name: p.name }
}

pub open spec fn version_of(p: PurlView) -> VersionRowView {
    VersionRowView { ty: p.ty, namespace: p.namespace, name: p.name, version: p.version }
}

/// The unique package rows of the first `k` purls, in order of first
/// appearance.
pub open spec fn packages_upto(ps: Seq<PurlView>, k: int) -> Seq<PackageRowView>
    decreases k,
{
    if k <= 0 {
        Seq::empty()
    } else {
        let prev = packages_upto(ps, k - 1);
        if prev.contains(package_of(ps[k - 1])) {
            prev
        } else {
            prev.push(package_of(ps[k - 1]))
        }
    }
}

/// The unique package-version rows of the first `k` purls.
pub open spec fn versions_upto(ps: Seq<PurlView>, k: int) -> Seq<VersionRowView>
    decreases k,
{
    if k <= 0 {
        Seq::empty()
    } else {
        let prev = versions_upto(ps, k - 1);
        if prev.contains(version_of(ps[k - 1])) {
            prev
        } else {
            prev.push(version_of(ps[k - 1]))
        }
    }
}

/// The derived rows never repeat a package.
pub proof fn lemma_packages_upto_unique(ps: Seq<PurlView>, k: int)
    ensures
        forall|i: int, j: int|
            0 <= i < packages_upto(ps, k).len() && 0 <= j < i ==> packages_upto(ps, k)[i]
                != packages_upto(ps, k)[j],
    decreases k,
{
    if k > 0 {
        lemma_packages_upto_unique(ps, k - 1);
        let prev = packages_upto(ps, k - 1);
        let cur = packages_upto(ps, k);
        if !prev.contains(package_of(ps[k - 1])) {
            assert forall|i: int, j: int|
                0 <= i < cur.len() && 0 <= j < i implies cur[i] != cur[j] by {
                if i == prev.len() {
                    assert(cur[j] == prev[j]);
                    if prev[j] == package_of(ps[k - 1]) {
                        assert(prev.contains(package_of(ps[k - 1])));
                    }
                }
            }
        }
    }
}

/// Nor a package version.
pub proof fn lemma_versions_upto_unique(ps: Seq<PurlView>, k: int)
    ensures
        forall|i: int, j: int|
            0 <= i < versions_upto(ps, k).len() && 0 <= j < i ==> versions_upto(ps, k)[i]
                != versions_upto(ps, k)[j],
    decreases k,
{
    if k > 0 {
        lemma_versions_upto_unique(ps, k - 1);
        let prev = versions_upto(ps, k - 1);
        let cur = versions_upto(ps, k);
        if !prev.contains(version_of(ps[k - 1])) {
            assert forall|i: int, j: int|
                0 <= i < cur.len() && 0 <= j < i implies cur[i] != cur[j] by {
                if i == prev.len() {
                    assert(cur[j] == prev[j]);
                    if prev[j] == version_of(ps[k - 1]) {
                        assert(prev.contains(version_of(ps[k - 1])));
                    }
                }
            }
        }
    }
}

/// The three row batches one creation pass derives.
#[derive(Debug)]
pub struct PurlBatches {
    pub packages: Vec<PackageRow>,
    pub versions: Vec<VersionRow>,
    pub qualified: Vec<Purl>,
}

fn same_purl(a: &Purl, b: &Purl) -> (r: bool)
    ensures
        r == (a@ == b@),
{
    let r = a.ty == b.ty && a.namespace == b.namespace && a.name == b.name && a.version
        == b.version && a.qualifiers == b.qualifiers;
    proof {
        if r {
            assert(a@ =~= b@);
        }
    }
    r
}

fn duplicate_purl(p: &Purl) -> (r: Purl)
    ensures
        r@ == p@,
{
    let r = Purl {
        ty: p.ty.clone(),
        namespace: p.namespace.clone(),
        name: p.name.clone(),
        version: p.version.clone(),
        qualifiers: p.qualifiers.clone(),
    };
    proof {
        assert(r@ =~= p@);
    }
    r
}

/// Creator of purl rows: a set of collected purls. Adding the same
/// purl twice keeps one copy.
#[derive(Debug)]
pub struct PurlCreator {
    purls: Vec<Purl>,
}

impl View for PurlCreator {
    type V = Seq<PurlView>;

    closed spec fn view(&self) -> Seq<PurlView> {
        self.purls@.map_values(|p: Purl| p@)
    }
}

impl PurlCreator {
    /// The collected purls never repeat.
    pub open spec fn wf(&self) -> bool {
        forall|i: int, j: int|
            0 <= i < self@.len() && 0 <= j < i ==> self@[i] != self@[j]
    }

    pub fn new() -> (r: PurlCreator)
        ensures
            r.wf(),
            r@.len() == 0,
    {
        PurlCreator { purls: Vec::new() }
    }

    /// Collects one purl, with set semantics.
    pub fn add(&mut self, purl: Purl)
        requires
            old(self).wf(),
        ensures
            final(self).wf(),
            final(self)@ == if old(self)@.contains(purl@) {
                old(self)@
            } else {
                old(self)@.push(purl@)
            },
    {
        let mut i: usize = 0;
        while i < self.purls.len()
            invariant
                old(self).wf(),
                i <= self@.len(),
                self@ == old(self)@,
                forall|k: int| 0 <= k < i as int ==> self@[k] != purl@,
        decreases self@.len() - i as int,
        {
            if same_purl(&self.purls[i], &purl) {
                proof {
                    assert(self@[i as int] == purl@);
                    assert(self@.contains(purl@));
                }
                return ;
            }
            proof {
                assert(self@[i as int] != purl@);
            }
            i += 1;
        }
        proof {
            if old(self)@.contains(purl@) {
                let k = choose|k: int| 0 <= k < old(self)@.len() && old(self)@[k] == purl@;
                assert(false);
            }
        }
        self.purls.push(purl);
        proof {
            assert(self@ =~= old(self)@.push(self.purls@[old(self)@.len() as int]@));
        }
    }

    /// Derives the insertable batches: the collected purls themselves
    /// as qualified-package rows, and the deduplicated package and
    /// package-version rows they induce, in order of first appearance.
    pub fn create(self) -> (r: PurlBatches)
        requires
            self.wf(),
        ensures
            r.qualified@.map_values(|q: Purl| q@) == self@,
            r.packages@.map_values(|q: PackageRow| q@) == packages_upto(self@, self@.len() as int),
            r.versions@.map_values(|q: VersionRow| q@) == versions_upto(self@, self@.len() as int),
    {
        let ghost ps = self@;
        let mut packages: Vec<PackageRow> = Vec::new();
        let mut versions: Vec<VersionRow> = Vec::new();
        let mut qualified: Vec<Purl> = Vec::new();
        let mut i: usize = 0;
        while i < self.purls.len()
            invariant
                i <= ps.len(),
                ps == self@,
                ps.len() == self.purls@.len(),
                qualified@.map_values(|q: Purl| q@) == ps.subrange(0, i as int),
                packages@.map_values(|q: PackageRow| q@) == packages_upto(ps, i as int),
                versions@.map_values(|q: VersionRow| q@) == versions_upto(ps, i as int),
            decreases ps.len() - i as int,
        {
            let p = &self.purls[i];
            proof {
                assert(p@ == ps[i as int]);
            }
            let ghost q0 = qualified@;
            let dup = duplicate_purl(p);
            proof {
                assert(dup@ == ps[i as int]);
            }
            qualified.push(dup);
            proof {
                assert(qualified@ == q0.push(dup));
                assert(q0.map_values(|q: Purl| q@) == ps.subrange(0, i as int));
                assert(q0.map_values(|q: Purl| q@).len() == q0.len());
                assert(q0.len() == i as int);
                assert forall|x: int|
                    0 <= x < qualified@.len() implies qualified@.map_values(|q: Purl| q@)[x]
                    == #[trigger] ps.subrange(0, i as int + 1)[x] by {
                    if x < q0.len() {
                        assert(qualified@[x] == q0[x]);
                        assert(q0.map_values(|q: Purl| q@)[x] == q0[x]@);
                        assert(ps.subrange(0, i as int)[x] == ps[x]);
                    } else {
                        assert(qualified@[x] == dup);
                    }
                }
                assert(qualified@.map_values(|q: Purl| q@) =~= ps.subrange(0, i as int + 1));
            }
            let pkg = PackageRow {
                ty: p.ty.clone(),
                namespace: p.namespace.clone(),
                name: p.name.clone(),
            };
            proof {
                assert(pkg@ =~= package_of(ps[i as int]));
            }
            let mut seen = false;
            let mut k: usize = 0;
            while k < packages.len()
                invariant
                    k <= packages@.len(),
                    pkg@ == package_of(ps[i as int]),
                    seen ==> packages@.map_values(|q: PackageRow| q@).contains(pkg@),
                    !seen ==> forall|x: int|
                        0 <= x < k as int ==> (#[trigger] packages@[x]@) != pkg@,
                decreases packages@.len() - k as int,
            {
                if packages[k].ty == pkg.ty && packages[k].namespace == pkg.namespace
                    && packages[k].name == pkg.name {
                    proof {
                        assert(packages@[k as int]@ =~= pkg@);
                        assert(packages@.map_values(|q: PackageRow| q@)[k as int] == pkg@);
                        assert(packages@.map_values(|q: PackageRow| q@).contains(pkg@));
                    }
                    seen = true;
                }
                k += 1;
            }
            proof {
                let mp = packages@.map_values(|q: PackageRow| q@);
                if !seen {
                    if mp.contains(pkg@) {
                        let x = choose|x: int| 0 <= x < mp.len() && mp[x] == pkg@;
                        assert(packages@[x]@ == pkg@);
                    }
                    assert(!mp.contains(pkg@));
                }
            }
            if !seen {
                let ghost p0 = packages@;
                packages.push(pkg);
                proof {
                    assert(packages@ == p0.push(pkg));
                    assert forall|x: int|
                        0 <= x < packages@.len() implies packages@.map_values(
                        |q: PackageRow| q@,
                    )[x] == #[trigger] packages_upto(ps, i as int + 1)[x] by {
                        if x < p0.len() {
                            assert(packages@[x] == p0[x]);
                            assert(p0.map_values(|q: PackageRow| q@)[x] == p0[x]@);
                        } else {
                            assert(packages@[x] == pkg);
                        }
                    }
                    assert(packages@.map_values(|q: PackageRow| q@) =~= packages_upto(
                        ps,
                        i as int + 1,
                    ));
                }
            } else {
                proof {
                    assert(packages@.map_values(|q: PackageRow| q@) =~= packages_upto(
                        ps,
                        i as int + 1,
                    ));
                }
            }
            let ver = VersionRow {
                ty: p.ty.clone(),
                namespace: p.namespace.clone(),
                name: p.name.clone(),
                version: p.version.clone(),
            };
            proof {
                assert(ver@ =~= version_of(ps[i as int]));
            }
            let mut vseen = false;
            let mut k2: usize = 0;
            while k2 < versions.len()
                invariant
                    k2 <= versions@.len(),
                    ver@ == version_of(ps[i as int]),
                    vseen ==> versions@.map_values(|q: VersionRow| q@).contains(ver@),
                    !vseen ==> forall|x: int|
                        0 <= x < k2 as int ==> (#[trigger] versions@[x]@) != ver@,
                decreases versions@.len() - k2 as int,
            {
                if versions[k2].ty == ver.ty && versions[k2].namespace == ver.namespace
                    && versions[k2].name == ver.name && versions[k2].version == ver.version {
                    proof {
                        assert(versions@[k2 as int]@ =~= ver@);
                        assert(versions@.map_values(|q: VersionRow| q@)[k2 as int] == ver@);
                        assert(versions@.map_values(|q: VersionRow| q@).contains(ver@));
                    }
                    vseen = true;
                }
                k2 += 1;
            }
            proof {
                let mv = versions@.map_values(|q: VersionRow| q@);
                if !vseen {
                    if mv.contains(ver@) {
                        let x = choose|x: int| 0 <= x < mv.len() && mv[x] == ver@;
                        assert(versions@[x]@ == ver@);
                    }
                    assert(!mv.contains(ver@));
                }
            }
            if !vseen {
                let ghost v0 = versions@;
                versions.push(ver);
                proof {
                    assert(versions@ == v0.push(ver));
                    assert forall|x: int|
                        0 <= x < versions@.len() implies versions@.map_values(
                        |q: VersionRow| q@,
                    )[x] == #[trigger] versions_upto(ps, i as int + 1)[x] by {
                        if x < v0.len() {
                            assert(versions@[x] == v0[x]);
                            assert(v0.map_values(|q: VersionRow| q@)[x] == v0[x]@);
                        } else {
                            assert(versions@[x] == ver);
                        }
                    }
                    assert(versions@.map_values(|q: VersionRow| q@) =~= versions_upto(
                        ps,
                        i as int + 1,
                    ));
                }
            } else {
                proof {
                    assert(versions@.map_values(|q: VersionRow| q@) =~= versions_upto(
                        ps,
                        i as int + 1,
                    ));
                }
            }
            i += 1;
        }
        proof {
            assert(ps.subrange(0, ps.len() as int) =~= ps);
        }
        PurlBatches { packages, versions, qualified }
    }
}

} // verus!
