//! Component matcher: resolves a query value — free-text term, exact
//! name, package URL, or CPE — to the nodes of a graph that match it.
//! Free text matches case-insensitively (ASCII folding) as a substring
//! of the name, the version, any package URL or any CPE of a node;
//! the other reference kinds match by exact equality.

use vstd::prelude::*;
use crate::model::{GraphNode, GraphNodeView};

verus! {

/// A query value used only for matching, never persisted.
#[derive(Debug)]
pub enum ComponentReference {
    /// Case-insensitive substring match on names, versions, package
    /// URLs and CPEs.
    Text(String),
    /// Exact match on the node name.
    Name(String),
    /// Exact membership in the node's package URL set.
    Purl(String),
    /// Exact membership in the node's CPE set.
    Cpe(String),
}

pub enum ComponentReferenceView {
    Text(Seq<char>),
    Name(Seq<char>),
    Purl(Seq<char>),
    Cpe(Seq<char>),
}

impl View for ComponentReference {
    type V = ComponentReferenceView;

    open spec fn view(&self) -> ComponentReferenceView {
        match self {
            ComponentReference::Text(s) => ComponentReferenceView::Text(s@),
            ComponentReference::Name(s) => ComponentReferenceView::Name(s@),
            ComponentReference::Purl(s) => ComponentReferenceView::Purl(s@),
            ComponentReference::Cpe(s) => ComponentReferenceView::Cpe(s@),
        }
    }
}

/// A describes-query value: what a document's root describes, given
/// either as a package URL or as a CPE.
#[derive(Debug)]
pub enum Describes {
    Purl(String),
    Cpe(String),
}

impl Describes {
    /// The component reference that matches what is described.
    pub fn to_reference(self) -> (r: ComponentReference)
        ensures
            match self {
                Describes::Purl(s) => r@ == ComponentReferenceView::Purl(s@),
                Describes::Cpe(s) => r@ == ComponentReferenceView::Cpe(s@),
            },
    {
        match self {
            Describes::Purl(s) => ComponentReference::Purl(s),
            Describes::Cpe(s) => ComponentReference::Cpe(s),
        }
    }
}

/// ASCII case folding of one character.
pub open spec fn fold_char(c: char) -> char {
    if 65 <= c as int && c as int <= 90 {
        (((c as int + 32) as u8) as char)
    } else {
        c
    }
}

/// ASCII case folding of a string value.
pub open spec fn fold(s: Seq<char>) -> Seq<char> {
    s.map_values(|c: char| fold_char(c))
}

/// `n` occurs in `h` at position `i`.
pub open spec fn occurs_at(h: Seq<char>, n: Seq<char>, i: int) -> bool {
    0 <= i && i + n.len() <= h.len() && h.subrange(i, i + n.len() as int) == n
}

/// `n` occurs somewhere in `h`.
pub open spec fn seq_contains(h: Seq<char>, n: Seq<char>) -> bool {
    exists|i: int| occurs_at(h, n, i)
}

/// Case-insensitive substring match.
pub open spec fn text_matches(hay: Seq<char>, term: Seq<char>) -> bool {
    seq_contains(fold(hay), fold(term))
}

/// What it means for a node to match a reference.
pub open spec fn node_matches(n: GraphNodeView, r: ComponentReferenceView) -> bool {
    match r {
        ComponentReferenceView::Text(t) => {
            ||| text_matches(n.name, t)
            ||| text_matches(n.version, t)
            ||| exists|i: int| 0 <= i < n.purls.len() && text_matches(#[trigger] n.purls[i], t)
            ||| exists|i: int| 0 <= i < n.cpes.len() && text_matches(#[trigger] n.cpes[i], t)
        },
        ComponentReferenceView::Name(s) => n.name == s,
        ComponentReferenceView::Purl(s) => exists|i: int|
            0 <= i < n.purls.len() && #[trigger] n.purls[i] == s,
        ComponentReferenceView::Cpe(s) => exists|i: int|
            0 <= i < n.cpes.len() && #[trigger] n.cpes[i] == s,
    }
}

/// A minimal well-formedness check of a package URL reference: the
/// `pkg:` scheme, a nonempty type, a slash, and a nonempty remainder.
pub open spec fn slash_splits(s: Seq<char>, i: int) -> bool {
    5 <= i <= s.len() - 2 && s[i] == '/' && (forall|j: int| 4 <= j < i ==> s[j] != '/')
}

pub open spec fn valid_purl(s: Seq<char>) -> bool {
    &&& s.len() >= 7
    &&& s[0] == 'p' && s[1] == 'k' && s[2] == 'g' && s[3] == ':'
    &&& exists|i: int| slash_splits(s, i)
}

/// References are screened at the boundary: a package URL reference
/// must be well formed before it ever reaches the matcher.
pub open spec fn ref_valid(r: ComponentReferenceView) -> bool {
    match r {
        ComponentReferenceView::Purl(s) => valid_purl(s),
        _ => true,
    }
}

fn fold_char_exec(c: char) -> (r: char)
    ensures
        r == fold_char(c),
{
    if c >= 'A' && c <= 'Z' {
        ((c as u8) + 32) as char
    } else {
        c
    }
}

/// Whether the folded needle occurs in the folded haystack at `i`.
fn occurs_at_exec(hay: &str, needle: &str, i: usize, hl: usize, nl: usize) -> (r: bool)
    requires
        hl == hay@.len(),
        nl == needle@.len(),
        i + nl <= hl,
    ensures
        r == occurs_at(fold(hay@), fold(needle@), i as int),
{
    let mut j: usize = 0;
    while j < nl
        invariant
            hl == hay@.len(),
            nl == needle@.len(),
            i + nl <= hl,
            j <= nl,
            forall|k: int|
                0 <= k < j as int ==> fold(hay@)[i + k] == fold(needle@)[k],
        decreases nl - j,
    {
        let hc = fold_char_exec(hay.get_char(i + j));
        let nc = fold_char_exec(needle.get_char(j));
        if hc != nc {
            proof {
                assert(fold(hay@)[i as int + j as int] != fold(needle@)[j as int]);
                assert(fold(hay@).subrange(i as int, i as int + nl as int)[j as int] != fold(
                    needle@,
                )[j as int]);
            }
            return false;
        }
        j += 1;
    }
    proof {
        assert(fold(hay@).subrange(i as int, i as int + nl as int) =~= fold(needle@));
    }
    true
}

/// Case-insensitive substring search, the free-text matching primitive.
pub fn contains_fold(hay: &str, needle: &str) -> (r: bool)
    ensures
        r == text_matches(hay@, needle@),
{
    let hl = hay.unicode_len();
    let nl = needle.unicode_len();
    if nl == 0 {
        proof {
            assert(fold(needle@) =~= fold(hay@).subrange(0, 0));
            assert(occurs_at(fold(hay@), fold(needle@), 0));
        }
        return true;
    }
    if nl > hl {
        proof {
            assert forall|i: int| !occurs_at(fold(hay@), fold(needle@), i) by {}
        }
        return false;
    }
    let mut i: usize = 0;
    while i <= hl - nl
        invariant
            hl == hay@.len(),
            nl == needle@.len(),
            1 <= nl <= hl,
            i <= hl - nl + 1,
            forall|k: int| 0 <= k < i as int ==> !occurs_at(fold(hay@), fold(needle@), k),
        decreases hl - nl - i + 1,
    {
        if occurs_at_exec(hay, needle, i, hl, nl) {
            return true;
        }
        i += 1;
    }
    proof {
        assert forall|k: int| !occurs_at(fold(hay@), fold(needle@), k) by {}
    }
    false
}

/// Whether any string of the list equals the given one.
fn any_equal(list: &Vec<String>, s: &String) -> (r: bool)
    ensures
        r == exists|i: int| 0 <= i < list@.len() && #[trigger] list@[i]@ == s@,
{
    let mut i: usize = 0;
    while i < list.len()
        invariant
            i <= list@.len(),
            forall|k: int| 0 <= k < i as int ==> #[trigger] list@[k]@ != s@,
        decreases list@.len() - i as int,
    {
        if list[i] == *s {
            return true;
        }
        i += 1;
    }
    false
}

/// Whether the folded term occurs in any string of the list.
fn any_contains_fold(list: &Vec<String>, term: &String) -> (r: bool)
    ensures
        r == exists|i: int|
            0 <= i < list@.len() && text_matches(#[trigger] list@[i]@, term@),
{
    let mut i: usize = 0;
    while i < list.len()
        invariant
            i <= list@.len(),
            forall|k: int| 0 <= k < i as int ==> !text_matches(#[trigger] list@[k]@, term@),
        decreases list@.len() - i as int,
    {
        if contains_fold(list[i].as_str(), term.as_str()) {
            return true;
        }
        i += 1;
    }
    false
}

/// Whether one node matches the reference.
pub fn matches_node(n: &GraphNode, r: &ComponentReference) -> (b: bool)
    ensures
        b == node_matches(n@, r@),
{
    match r {
        ComponentReference::Text(t) => {
            if contains_fold(n.name.as_str(), t.as_str()) {
                return true;
            }
            if contains_fold(n.version.as_str(), t.as_str()) {
                return true;
            }
            if any_contains_fold(&n.purls, t) {
                proof {
                    let w = choose|i: int|
                        0 <= i < n.purls@.len() && text_matches(n.purls@[i]@, t@);
                    assert(text_matches(n@.purls[w], t@));
                }
                return true;
            }
            if any_contains_fold(&n.cpes, t) {
                proof {
                    let w = choose|i: int|
                        0 <= i < n.cpes@.len() && text_matches(n.cpes@[i]@, t@);
                    assert(text_matches(n@.cpes[w], t@));
                }
                return true;
            }
            proof {
                assert forall|i: int| 0 <= i < n@.purls.len() implies !text_matches(
                    n@.purls[i],
                    t@,
                ) by {
                    assert(!text_matches(n.purls@[i]@, t@));
                }
                assert forall|i: int| 0 <= i < n@.cpes.len() implies !text_matches(
                    n@.cpes[i],
                    t@,
                ) by {
                    assert(!text_matches(n.cpes@[i]@, t@));
                }
            }
            false
        },
        ComponentReference::Name(s) => n.name == *s,
        ComponentReference::Purl(s) => {
            let b = any_equal(&n.purls, s);
            proof {
                if b {
                    let w = choose|i: int| 0 <= i < n.purls@.len() && n.purls@[i]@ == s@;
                    assert(n@.purls[w] == s@);
                } else {
                    assert forall|i: int| 0 <= i < n@.purls.len() implies n@.purls[i] != s@ by {
                        assert(n.purls@[i]@ != s@);
                    }
                }
            }
            b
        },
        ComponentReference::Cpe(s) => {
            let b = any_equal(&n.cpes, s);
            proof {
                if b {
                    let w = choose|i: int| 0 <= i < n.cpes@.len() && n.cpes@[i]@ == s@;
                    assert(n@.cpes[w] == s@);
                } else {
                    assert forall|i: int| 0 <= i < n@.cpes.len() implies n@.cpes[i] != s@ by {
                        assert(n.cpes@[i]@ != s@);
                    }
                }
            }
            b
        },
    }
}

/// Executable screening of a reference, `ref_valid` exactly.
pub fn check_reference(r: &ComponentReference) -> (b: bool)
    ensures
        b == ref_valid(r@),
{
    match r {
        ComponentReference::Purl(s) => check_purl(s.as_str()),
        _ => true,
    }
}

/// Executable check of `valid_purl`.
pub fn check_purl(s: &str) -> (b: bool)
    ensures
        b == valid_purl(s@),
{
    let n = s.unicode_len();
    if n < 7 {
        return false;
    }
    if s.get_char(0) != 'p' || s.get_char(1) != 'k' || s.get_char(2) != 'g' || s.get_char(3)
        != ':' {
        return false;
    }
    let mut i: usize = 4;
    while i < n
        invariant
            n == s@.len(),
            n >= 7,
            4 <= i <= n,
            s@[0] == 'p' && s@[1] == 'k' && s@[2] == 'g' && s@[3] == ':',
            forall|j: int| 4 <= j < i as int ==> s@[j] != '/',
        decreases n - i,
    {
        if s.get_char(i) == '/' {
            if i >= 5 && i <= n - 2 {
                proof {
                    assert(slash_splits(s@, i as int));
                    assert(s@.len() >= 7);
                    assert(s@[0] == 'p' && s@[1] == 'k' && s@[2] == 'g' && s@[3] == ':');
                    assert(valid_purl(s@));
                }
                return true;
            } else {
                proof {
                    assert forall|k: int| !slash_splits(s@, k) by {
                        if slash_splits(s@, k) {
                            if k > i as int {
                                assert(s@[i as int] != '/');
                            }
                        }
                    }
                }
                return false;
            }
        }
        i += 1;
    }
    proof {
        assert forall|k: int| !slash_splits(s@, k) by {}
    }
    false
}

} // verus!
