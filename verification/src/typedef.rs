//! The compile-time type descriptor attached to every expression node.
//!
//! A `TypeDef` holds the set of runtime shapes an expression may produce
//! (`kind`), whether its evaluation may fail (`fallible`), and optionally a
//! precise per-index or per-key map of nested descriptors for arrays and
//! objects. Its algebra is conservative: `merge` unions kinds, ORs
//! fallibility, and keeps per-key precision only where both sides define a
//! key; it never loses a possible kind.

use vstd::prelude::*;
use crate::kind;
use crate::kind::Kind;

verus! {

/// Compile-time descriptor of an expression's possible runtime behaviour.
///
/// Invariants (see `wf_view`): a per-index map is only present when `kind`
/// includes the array bit, a per-key map only when it includes the object
/// bit, and map keys are unique.
#[derive(Debug)]
pub struct TypeDef {
    /// Whether evaluating the expression may produce a runtime error.
    pub fallible: bool,
    /// The set of runtime shapes the expression may produce.
    pub kind: Kind,
    /// Precise per-index descriptors, when the array shape is statically
    /// known; an index absent from the map is of unknown kind.
    pub array_index_types: Option<Vec<(usize, TypeDef)>>,
    /// Precise per-key descriptors, when the object shape is statically
    /// known; a key absent from the map is of unknown kind.
    pub object_field_types: Option<Vec<(Vec<u8>, TypeDef)>>,
}

/// The mathematical shape of a `TypeDef`, with sequences for vectors.
pub struct TypeDefView {
    /// Whether evaluation may produce a runtime error.
    pub fallible: bool,
    /// The set of possible runtime shapes.
    pub kind: Kind,
    /// Precise per-index descriptors, if any.
    pub array_index_types: Option<Seq<(usize, TypeDefView)>>,
    /// Precise per-key descriptors, if any.
    pub object_field_types: Option<Seq<(Seq<u8>, TypeDefView)>>,
}

/// The view of a sequence of per-index entries, element-wise.
pub open spec fn view_index_entries(s: Seq<(usize, TypeDef)>) -> Seq<(usize, TypeDefView)>
    decreases s,
{
    if s.len() == 0 {
        Seq::empty()
    } else {
        view_index_entries(s.drop_last()).push((s.last().0, td_view(s.last().1)))
    }
}

/// The view of a sequence of per-key entries, element-wise.
pub open spec fn view_field_entries(s: Seq<(Vec<u8>, TypeDef)>) -> Seq<(Seq<u8>, TypeDefView)>
    decreases s,
{
    if s.len() == 0 {
        Seq::empty()
    } else {
        view_field_entries(s.drop_last()).push((s.last().0@, td_view(s.last().1)))
    }
}

/// The view of a single type descriptor.
pub open spec fn td_view(t: TypeDef) -> TypeDefView
    decreases t,
{
    TypeDefView {
        fallible: t.fallible,
        kind: t.kind,
        array_index_types: match t.array_index_types {
            Option::Some(m) => Option::Some(view_index_entries(m@)),
            Option::None => Option::None,
        },
        object_field_types: match t.object_field_types {
            Option::Some(m) => Option::Some(view_field_entries(m@)),
            Option::None => Option::None,
        },
    }
}

impl View for TypeDef {
    type V = TypeDefView;

    open spec fn view(&self) -> TypeDefView {
        td_view(*self)
    }
}

/// `view_index_entries` is the element-wise view.
pub proof fn lemma_view_index_elementwise(s: Seq<(usize, TypeDef)>)
    ensures
        view_index_entries(s).len() == s.len(),
        forall|i: int| 0 <= i < s.len()
            ==> view_index_entries(s)[i] == (s[i].0, td_view(s[i].1)),
    decreases s,
{
    if s.len() > 0 {
        lemma_view_index_elementwise(s.drop_last());
    }
}

/// `view_field_entries` is the element-wise view.
pub proof fn lemma_view_field_elementwise(s: Seq<(Vec<u8>, TypeDef)>)
    ensures
        view_field_entries(s).len() == s.len(),
        forall|i: int| 0 <= i < s.len()
            ==> view_field_entries(s)[i] == (s[i].0@, td_view(s[i].1)),
    decreases s,
{
    if s.len() > 0 {
        lemma_view_field_elementwise(s.drop_last());
    }
}

/// Whether the per-index map holds an entry for `k`.
pub open spec fn has_index_key(m: Seq<(usize, TypeDefView)>, k: usize) -> bool {
    exists|i: int| 0 <= i < m.len() && m[i].0 == k
}

/// The descriptor bound to `k`, when the map's keys are unique.
pub open spec fn index_lookup(m: Seq<(usize, TypeDefView)>, k: usize) -> TypeDefView
    recommends
        has_index_key(m, k),
{
    let i = choose|i: int| 0 <= i < m.len() && m[i].0 == k;
    m[i].1
}

/// Whether the per-key map holds an entry for `k`.
pub open spec fn has_field_key(m: Seq<(Seq<u8>, TypeDefView)>, k: Seq<u8>) -> bool {
    exists|i: int| 0 <= i < m.len() && m[i].0 == k
}

/// The descriptor bound to `k`, when the map's keys are unique.
pub open spec fn field_lookup(m: Seq<(Seq<u8>, TypeDefView)>, k: Seq<u8>) -> TypeDefView
    recommends
        has_field_key(m, k),
{
    let i = choose|i: int| 0 <= i < m.len() && m[i].0 == k;
    m[i].1
}

/// Whether no two entries of the per-index map share a key.
pub open spec fn unique_index_keys(m: Seq<(usize, TypeDefView)>) -> bool {
    forall|i: int, j: int| 0 <= i < j < m.len() ==> m[i].0 != m[j].0
}

/// Whether no two entries of the per-key map share a key.
pub open spec fn unique_field_keys(m: Seq<(Seq<u8>, TypeDefView)>) -> bool {
    forall|i: int, j: int| 0 <= i < j < m.len() ==> m[i].0 != m[j].0
}

/// Well-formedness: a map is only present when the matching kind bit is
/// set, keys are unique, and nested descriptors are well-formed in turn.
pub open spec fn wf_view(t: TypeDefView) -> bool
    decreases t,
{
    &&& match t.array_index_types {
        Option::Some(m) => {
            &&& t.kind.spec_contains_bits(kind::ARRAY)
            &&& unique_index_keys(m)
            &&& forall|i: int| 0 <= i < m.len() ==> wf_view(#[trigger] m[i].1)
        },
        Option::None => true,
    }
    &&& match t.object_field_types {
        Option::Some(m) => {
            &&& t.kind.spec_contains_bits(kind::OBJECT)
            &&& unique_field_keys(m)
            &&& forall|i: int| 0 <= i < m.len() ==> wf_view(#[trigger] m[i].1)
        },
        Option::None => true,
    }
}

/// Key-wise merge of two per-index maps: an entry survives exactly when
/// both sides define its key, and the bound descriptors are merged.
pub open spec fn merge_index_entries(
    ma: Seq<(usize, TypeDefView)>,
    mb: Seq<(usize, TypeDefView)>,
) -> Seq<(usize, TypeDefView)>
    decreases ma,
{
    if ma.len() == 0 {
        Seq::empty()
    } else {
        let init = merge_index_entries(ma.drop_last(), mb);
        if has_index_key(mb, ma.last().0) {
            init.push((ma.last().0, merge_views(ma.last().1, index_lookup(mb, ma.last().0))))
        } else {
            init
        }
    }
}

/// Key-wise merge of two per-key maps.
pub open spec fn merge_field_entries(
    ma: Seq<(Seq<u8>, TypeDefView)>,
    mb: Seq<(Seq<u8>, TypeDefView)>,
) -> Seq<(Seq<u8>, TypeDefView)>
    decreases ma,
{
    if ma.len() == 0 {
        Seq::empty()
    } else {
        let init = merge_field_entries(ma.drop_last(), mb);
        if has_field_key(mb, ma.last().0) {
            init.push((ma.last().0, merge_views(ma.last().1, field_lookup(mb, ma.last().0))))
        } else {
            init
        }
    }
}

/// The merge of two type descriptors: union of kinds, OR of fallibility,
/// and per-key precision kept only where both sides define a key.
pub open spec fn merge_views(a: TypeDefView, b: TypeDefView) -> TypeDefView
    decreases a,
{
    TypeDefView {
        fallible: a.fallible || b.fallible,
        kind: kind::spec_union(a.kind, b.kind),
        array_index_types: match (a.array_index_types, b.array_index_types) {
            (Option::Some(ma), Option::Some(mb)) => Option::Some(merge_index_entries(ma, mb)),
            _ => Option::None,
        },
        object_field_types: match (a.object_field_types, b.object_field_types) {
            (Option::Some(ma), Option::Some(mb)) => Option::Some(merge_field_entries(ma, mb)),
            _ => Option::None,
        },
    }
}

/// Whether two byte vectors hold the same bytes.
pub fn bytes_eq(a: &Vec<u8>, b: &Vec<u8>) -> (r: bool)
    ensures
        r == (a@ == b@),
{
    if a.len() != b.len() {
        assert(a@ != b@) by {
            assert(a@.len() != b@.len());
        }
        return false;
    }
    let n = a.len();
    let mut i: usize = 0;
    while i < n
        invariant
            i <= n,
            n == a@.len() && n == b@.len(),
            forall|l: int| 0 <= l < i ==> a@[l] == b@[l],
        decreases n - i,
    {
        if a[i] != b[i] {
            return false;
        }
        i += 1;
    }
    proof {
        assert(a@ =~= b@);
    }
    true
}

/// A fresh copy of a byte vector.
pub fn clone_bytes(b: &Vec<u8>) -> (r: Vec<u8>)
    ensures
        r@ == b@,
{
    let mut out: Vec<u8> = Vec::new();
    let n = b.len();
    let mut i: usize = 0;
    while i < n
        invariant
            i <= n,
            n == b@.len(),
            out@ == b@.take(i as int),
        decreases n - i,
    {
        out.push(b[i]);
        proof {
            assert(out@ =~= b@.take(i + 1 as int));
        }
        i += 1;
    }
    proof {
        assert(b@.take(n as int) =~= b@);
    }
    out
}

/// Position of the entry bound to `key` in a per-index map, if any.
fn find_index_entry(m: &Vec<(usize, TypeDef)>, key: usize) -> (r: Option<usize>)
    ensures
        match r {
            Option::Some(j) => j < m@.len() && m@[j as int].0 == key,
            Option::None => !has_index_key(view_index_entries(m@), key),
        },
{
    proof {
        lemma_view_index_elementwise(m@);
    }
    let n = m.len();
    let mut i: usize = 0;
    while i < n
        invariant
            i <= n,
            n == m@.len(),
            forall|l: int| 0 <= l < i ==> m@[l].0 != key,
        decreases n - i,
    {
        if m[i].0 == key {
            return Option::Some(i);
        }
        i += 1;
    }
    proof {
        lemma_view_index_elementwise(m@);
        assert forall|l: int| 0 <= l < view_index_entries(m@).len()
            implies view_index_entries(m@)[l].0 != key by {
            assert(view_index_entries(m@)[l].0 == m@[l].0);
        }
    }
    Option::None
}

/// Position of the entry bound to `key` in a per-key map, if any.
fn find_field_entry(m: &Vec<(Vec<u8>, TypeDef)>, key: &Vec<u8>) -> (r: Option<usize>)
    ensures
        match r {
            Option::Some(j) => j < m@.len() && m@[j as int].0@ == key@,
            Option::None => !has_field_key(view_field_entries(m@), key@),
        },
{
    let n = m.len();
    let mut i: usize = 0;
    while i < n
        invariant
            i <= n,
            n == m@.len(),
            forall|l: int| 0 <= l < i ==> m@[l].0@ != key@,
        decreases n - i,
    {
        if bytes_eq(&m[i].0, key) {
            return Option::Some(i);
        }
        i += 1;
    }
    proof {
        lemma_view_field_elementwise(m@);
        assert forall|l: int| 0 <= l < view_field_entries(m@).len()
            implies view_field_entries(m@)[l].0 != key@ by {
            assert(view_field_entries(m@)[l].0 == m@[l].0@);
        }
    }
    Option::None
}

/// With unique keys, any entry holding `k` gives the lookup's value.
pub proof fn lemma_lookup_unique_index(m: Seq<(usize, TypeDefView)>, i: int)
    requires
        unique_index_keys(m),
        0 <= i < m.len(),
    ensures
        has_index_key(m, m[i].0),
        index_lookup(m, m[i].0) == m[i].1,
{
    let k = m[i].0;
    assert(has_index_key(m, k));
    let c = choose|l: int| 0 <= l < m.len() && m[l].0 == k;
    if c != i {
        if c < i {
            assert(m[c].0 != m[i].0);
        } else {
            assert(m[i].0 != m[c].0);
        }
    }
}

/// With unique keys, any entry holding `k` gives the lookup's value.
pub proof fn lemma_lookup_unique_field(m: Seq<(Seq<u8>, TypeDefView)>, i: int)
    requires
        unique_field_keys(m),
        0 <= i < m.len(),
    ensures
        has_field_key(m, m[i].0),
        field_lookup(m, m[i].0) == m[i].1,
{
    let k = m[i].0;
    assert(has_field_key(m, k));
    let c = choose|l: int| 0 <= l < m.len() && m[l].0 == k;
    if c != i {
        if c < i {
            assert(m[c].0 != m[i].0);
        } else {
            assert(m[i].0 != m[c].0);
        }
    }
}

/// Key-wise merge of two per-index map vectors (see `merge_index_entries`).
#[verifier::spinoff_prover]
#[verifier::rlimit(50)]
fn merge_index_vecs(ma: &Vec<(usize, TypeDef)>, mb: &Vec<(usize, TypeDef)>) -> (r: Vec<(usize, TypeDef)>)
    requires
        unique_index_keys(view_index_entries(mb@)),
        forall|l: int| 0 <= l < view_index_entries(ma@).len()
            ==> wf_view(#[trigger] view_index_entries(ma@)[l].1),
        forall|l: int| 0 <= l < view_index_entries(mb@).len()
            ==> wf_view(#[trigger] view_index_entries(mb@)[l].1),
    ensures
        view_index_entries(r@) == merge_index_entries(
            view_index_entries(ma@), view_index_entries(mb@)),
    decreases *ma, 0int,
{
    let ghost mav = view_index_entries(ma@);
    let ghost mbv = view_index_entries(mb@);
    proof {
        lemma_view_index_elementwise(ma@);
        lemma_view_index_elementwise(mb@);
    }
    let mut out: Vec<(usize, TypeDef)> = Vec::new();
    let n = ma.len();
    let mut i: usize = 0;
    while i < n
        invariant
            i <= n,
            n == ma@.len(),
            mav == view_index_entries(ma@),
            mbv == view_index_entries(mb@),
            mav.len() == ma@.len(),
            forall|l: int| 0 <= l < ma@.len()
                ==> (#[trigger] mav[l]) == (ma@[l].0, td_view(ma@[l].1)),
            mbv.len() == mb@.len(),
            forall|l: int| 0 <= l < mb@.len()
                ==> (#[trigger] mbv[l]) == (mb@[l].0, td_view(mb@[l].1)),
            unique_index_keys(mbv),
            forall|l: int| 0 <= l < mav.len() ==> wf_view(#[trigger] mav[l].1),
            forall|l: int| 0 <= l < mbv.len() ==> wf_view(#[trigger] mbv[l].1),
            view_index_entries(out@) == merge_index_entries(mav.take(i as int), mbv),
        decreases n - i,
    {
        let key = ma[i].0;
        let ghost out_before = out@;
        match find_index_entry(mb, key) {
            Option::Some(j) => {
                proof {
                    assert(mbv[j as int] == (mb@[j as int].0, td_view(mb@[j as int].1)));
                    assert(mbv[j as int].0 == key);
                    lemma_lookup_unique_index(mbv, j as int);
                    assert(mav[i as int] == (ma@[i as int].0, td_view(ma@[i as int].1)));
                    assert(wf_view(mav[i as int].1));
                    assert(wf_view(mbv[j as int].1));
                }
                let merged = ma[i].1.merge(&mb[j].1);
                out.push((key, merged));
                proof {
                    assert(out@.drop_last() =~= out_before);
                    assert(view_index_entries(out@)
                        == view_index_entries(out_before).push((key, td_view(out@.last().1))));
                    assert(td_view(out@.last().1)
                        == merge_views(mav[i as int].1, index_lookup(mbv, key)));
                }
            },
            Option::None => {},
        }
        proof {
            assert(mav.take(i + 1).drop_last() =~= mav.take(i as int));
            assert(mav.take(i + 1).last() == mav[i as int]);
            assert(view_index_entries(out@) == merge_index_entries(mav.take(i + 1), mbv));
        }
        i += 1;
    }
    proof {
        assert(mav.take(n as int) =~= mav);
    }
    out
}

/// Key-wise merge of two per-key map vectors (see `merge_field_entries`).
#[verifier::spinoff_prover]
#[verifier::rlimit(50)]
fn merge_field_vecs(ma: &Vec<(Vec<u8>, TypeDef)>, mb: &Vec<(Vec<u8>, TypeDef)>) -> (r: Vec<(Vec<u8>, TypeDef)>)
    requires
        unique_field_keys(view_field_entries(mb@)),
        forall|l: int| 0 <= l < view_field_entries(ma@).len()
            ==> wf_view(#[trigger] view_field_entries(ma@)[l].1),
        forall|l: int| 0 <= l < view_field_entries(mb@).len()
            ==> wf_view(#[trigger] view_field_entries(mb@)[l].1),
    ensures
        view_field_entries(r@) == merge_field_entries(
            view_field_entries(ma@), view_field_entries(mb@)),
    decreases *ma, 0int,
{
    let ghost mav = view_field_entries(ma@);
    let ghost mbv = view_field_entries(mb@);
    proof {
        lemma_view_field_elementwise(ma@);
        lemma_view_field_elementwise(mb@);
    }
    let mut out: Vec<(Vec<u8>, TypeDef)> = Vec::new();
    let n = ma.len();
    let mut i: usize = 0;
    while i < n
        invariant
            i <= n,
            n == ma@.len(),
            mav == view_field_entries(ma@),
            mbv == view_field_entries(mb@),
            mav.len() == ma@.len(),
            forall|l: int| 0 <= l < ma@.len()
                ==> (#[trigger] mav[l]) == (ma@[l].0@, td_view(ma@[l].1)),
            mbv.len() == mb@.len(),
            forall|l: int| 0 <= l < mb@.len()
                ==> (#[trigger] mbv[l]) == (mb@[l].0@, td_view(mb@[l].1)),
            unique_field_keys(mbv),
            forall|l: int| 0 <= l < mav.len() ==> wf_view(#[trigger] mav[l].1),
            forall|l: int| 0 <= l < mbv.len() ==> wf_view(#[trigger] mbv[l].1),
            view_field_entries(out@) == merge_field_entries(mav.take(i as int), mbv),
        decreases n - i,
    {
        let ghost out_before = out@;
        let ghost keyv = ma@[i as int].0@;
        match find_field_entry(mb, &ma[i].0) {
            Option::Some(j) => {
                proof {
                    assert(mbv[j as int] == (mb@[j as int].0@, td_view(mb@[j as int].1)));
                    assert(mbv[j as int].0 == keyv);
                    lemma_lookup_unique_field(mbv, j as int);
                    assert(mav[i as int] == (ma@[i as int].0@, td_view(ma@[i as int].1)));
                    assert(wf_view(mav[i as int].1));
                    assert(wf_view(mbv[j as int].1));
                }
                let merged = ma[i].1.merge(&mb[j].1);
                let key = clone_bytes(&ma[i].0);
                out.push((key, merged));
                proof {
                    assert(out@.drop_last() =~= out_before);
                    assert(view_field_entries(out@)
                        == view_field_entries(out_before).push((keyv, td_view(out@.last().1))));
                    assert(td_view(out@.last().1)
                        == merge_views(mav[i as int].1, field_lookup(mbv, keyv)));
                }
            },
            Option::None => {},
        }
        proof {
            assert(mav.take(i + 1).drop_last() =~= mav.take(i as int));
            assert(mav.take(i + 1).last() == mav[i as int]);
            assert(view_field_entries(out@) == merge_field_entries(mav.take(i + 1), mbv));
        }
        i += 1;
    }
    proof {
        assert(mav.take(n as int) =~= mav);
    }
    out
}

/// A fresh copy of a per-index map vector, entry by entry.
#[verifier::spinoff_prover]
#[verifier::rlimit(50)]
fn clone_index_vec(ma: &Vec<(usize, TypeDef)>) -> (r: Vec<(usize, TypeDef)>)
    ensures
        view_index_entries(r@) == view_index_entries(ma@),
    decreases *ma, 0int,
{
    let mut out: Vec<(usize, TypeDef)> = Vec::new();
    let n = ma.len();
    let mut i: usize = 0;
    while i < n
        invariant
            i <= n,
            n == ma@.len(),
            out@.len() == i,
            forall|l: int| 0 <= l < i ==> out@[l].0 == ma@[l].0
                && td_view(#[trigger] out@[l].1) == td_view(ma@[l].1),
        decreases n - i,
    {
        let entry = (ma[i].0, ma[i].1.deep_clone());
        out.push(entry);
        i += 1;
    }
    proof {
        lemma_view_index_elementwise(out@);
        lemma_view_index_elementwise(ma@);
        assert(view_index_entries(out@) =~= view_index_entries(ma@));
    }
    out
}

/// A fresh copy of a per-key map vector, entry by entry.
#[verifier::spinoff_prover]
#[verifier::rlimit(50)]
fn clone_field_vec(ma: &Vec<(Vec<u8>, TypeDef)>) -> (r: Vec<(Vec<u8>, TypeDef)>)
    ensures
        view_field_entries(r@) == view_field_entries(ma@),
    decreases *ma, 0int,
{
    let mut out: Vec<(Vec<u8>, TypeDef)> = Vec::new();
    let n = ma.len();
    let mut i: usize = 0;
    while i < n
        invariant
            i <= n,
            n == ma@.len(),
            out@.len() == i,
            forall|l: int| 0 <= l < i ==> out@[l].0@ == ma@[l].0@
                && td_view(#[trigger] out@[l].1) == td_view(ma@[l].1),
        decreases n - i,
    {
        let entry = (clone_bytes(&ma[i].0), ma[i].1.deep_clone());
        out.push(entry);
        i += 1;
    }
    proof {
        lemma_view_field_elementwise(out@);
        lemma_view_field_elementwise(ma@);
        assert(view_field_entries(out@) =~= view_field_entries(ma@));
    }
    out
}

impl TypeDef {
    /// The broadest descriptor: any kind, infallible, no precise maps.
    pub fn new() -> (r: TypeDef)
        ensures
            r@.fallible == false,
            r@.kind.bits == kind::ANY,
            r@.array_index_types is None,
            r@.object_field_types is None,
            wf_view(r@),
    {
        TypeDef {
            fallible: false,
            kind: Kind { bits: kind::ANY },
            array_index_types: Option::None,
            object_field_types: Option::None,
        }
    }

    /// The kind set this descriptor admits.
    pub fn kind(&self) -> (r: Kind)
        ensures
            r == self@.kind,
    {
        self.kind
    }

    /// Whether evaluation of the described expression may fail.
    pub fn is_fallible(&self) -> (r: bool)
        ensures
            r == self@.fallible,
    {
        self.fallible
    }

    /// A fresh descriptor equal to this one.
    #[verifier::spinoff_prover]
    #[verifier::rlimit(50)]
    pub fn deep_clone(&self) -> (r: TypeDef)
        ensures
            r@ == self@,
        decreases *self, 1int,
    {
        let ai: Option<Vec<(usize, TypeDef)>> = match &self.array_index_types {
            Option::Some(ma) => Option::Some(clone_index_vec(ma)),
            Option::None => Option::None,
        };
        let oi: Option<Vec<(Vec<u8>, TypeDef)>> = match &self.object_field_types {
            Option::Some(ma) => Option::Some(clone_field_vec(ma)),
            Option::None => Option::None,
        };
        TypeDef { fallible: self.fallible, kind: self.kind, array_index_types: ai, object_field_types: oi }
    }

    /// Merge two descriptors: union of kinds, OR of fallibility, and
    /// per-key precision kept only where both sides define a key.
    #[verifier::spinoff_prover]
    #[verifier::rlimit(50)]
    pub fn merge(&self, other: &TypeDef) -> (r: TypeDef)
        requires
            wf_view(self@),
            wf_view(other@),
        ensures
            r@ == merge_views(self@, other@),
        decreases *self, 1int,
    {
        let f = self.fallible || other.fallible;
        let k = self.kind.union(other.kind);
        let ai: Option<Vec<(usize, TypeDef)>> = match &self.array_index_types {
            Option::Some(ma) => match &other.array_index_types {
                Option::Some(mb) => Option::Some(merge_index_vecs(ma, mb)),
                Option::None => Option::None,
            },
            Option::None => Option::None,
        };
        let oi: Option<Vec<(Vec<u8>, TypeDef)>> = match &self.object_field_types {
            Option::Some(ma) => match &other.object_field_types {
                Option::Some(mb) => Option::Some(merge_field_vecs(ma, mb)),
                Option::None => Option::None,
            },
            Option::None => Option::None,
        };
        let r = TypeDef { fallible: f, kind: k, array_index_types: ai, object_field_types: oi };
        proof {
            assert(r@.array_index_types == merge_views(self@, other@).array_index_types);
            assert(r@.object_field_types == merge_views(self@, other@).object_field_types);
        }
        r
    }

    /// A descriptor for a literal array with the given per-position
    /// element descriptors: array kind and a fully precise index map.
    #[verifier::spinoff_prover]
    #[verifier::rlimit(50)]
    pub fn array(self, elements: Vec<TypeDef>) -> (r: TypeDef)
        requires
            forall|i: int| 0 <= i < elements@.len() ==> wf_view(#[trigger] elements@[i]@),
        ensures
            r@.fallible == self@.fallible,
            r@.kind.bits == kind::ARRAY,
            r@.object_field_types is None,
            r@.array_index_types matches Some(m) && m.len() == elements@.len()
                && (forall|i: int| 0 <= i < m.len() ==> m[i] == (i as usize, elements@[i]@)),
            wf_view(r@),
    {
        let mut out: Vec<(usize, TypeDef)> = Vec::new();
        let n = elements.len();
        let mut i: usize = 0;
        while i < n
            invariant
                i <= n,
                n == elements@.len(),
                forall|l: int| 0 <= l < elements@.len() ==> wf_view(#[trigger] elements@[l]@),
                out@.len() == i,
                forall|l: int| 0 <= l < i ==> out@[l].0 == l
                    && td_view(#[trigger] out@[l].1) == elements@[l]@,
            decreases n - i,
        {
            let entry = (i, elements[i].deep_clone());
            out.push(entry);
            i += 1;
        }
        proof {
            lemma_view_index_elementwise(out@);
        }
        let r = TypeDef {
            fallible: self.fallible,
            kind: Kind { bits: kind::ARRAY },
            array_index_types: Option::Some(out),
            object_field_types: Option::None,
        };
        proof {
            let m = view_index_entries(out@);
            assert forall|i0: int| 0 <= i0 < m.len() implies m[i0] == (i0 as usize, elements@[i0]@) by {
                assert(m[i0] == (out@[i0].0, td_view(out@[i0].1)));
            }
            assert(kind::ARRAY & kind::ARRAY == kind::ARRAY) by (bit_vector);
        }
        r
    }

    /// A descriptor for an array whose known indices carry the given
    /// descriptors: array kind and the given (possibly sparse) index map.
    pub fn array_mapped(self, m: Vec<(usize, TypeDef)>) -> (r: TypeDef)
        requires
            forall|i: int, j: int| 0 <= i < j < m@.len() ==> m@[i].0 != m@[j].0,
            forall|i: int| 0 <= i < m@.len() ==> wf_view(#[trigger] m@[i].1@),
        ensures
            r@.fallible == self@.fallible,
            r@.kind.bits == kind::ARRAY,
            r@.object_field_types is None,
            r@.array_index_types == Some(view_index_entries(m@)),
            wf_view(r@),
    {
        proof {
            lemma_view_index_elementwise(m@);
        }
        let r = TypeDef {
            fallible: self.fallible,
            kind: Kind { bits: kind::ARRAY },
            array_index_types: Option::Some(m),
            object_field_types: Option::None,
        };
        proof {
            assert(kind::ARRAY & kind::ARRAY == kind::ARRAY) by (bit_vector);
            let mv = view_index_entries(m@);
            assert forall|i: int, j: int| 0 <= i < j < mv.len() implies mv[i].0 != mv[j].0 by {
                assert(mv[i] == (m@[i].0, td_view(m@[i].1)));
                assert(mv[j] == (m@[j].0, td_view(m@[j].1)));
            }
            assert forall|i: int| 0 <= i < mv.len() implies wf_view(mv[i].1) by {
                assert(mv[i] == (m@[i].0, td_view(m@[i].1)));
                assert(wf_view(m@[i].1@));
            }
        }
        r
    }
}


/// Key-wise merging keeps keys unique, keeps every key from the left
/// map, and yields well-formed nested descriptors.
proof fn lemma_merge_index_entries_wf(
    ma: Seq<(usize, TypeDefView)>,
    mb: Seq<(usize, TypeDefView)>,
)
    requires
        unique_index_keys(ma),
        unique_index_keys(mb),
        forall|i: int| 0 <= i < ma.len() ==> wf_view(#[trigger] ma[i].1),
        forall|i: int| 0 <= i < mb.len() ==> wf_view(#[trigger] mb[i].1),
    ensures
        unique_index_keys(merge_index_entries(ma, mb)),
        forall|j: int| 0 <= j < merge_index_entries(ma, mb).len()
            ==> wf_view(#[trigger] merge_index_entries(ma, mb)[j].1),
        forall|j: int| 0 <= j < merge_index_entries(ma, mb).len()
            ==> exists|i: int| 0 <= i < ma.len()
                && (#[trigger] merge_index_entries(ma, mb)[j]).0 == ma[i].0,
    decreases ma, 0int,
{
    if ma.len() > 0 {
        let init_ma = ma.drop_last();
        lemma_merge_index_entries_wf(init_ma, mb);
        let init = merge_index_entries(init_ma, mb);
        let k = ma.last().0;
        if has_index_key(mb, k) {
            let c = choose|i: int| 0 <= i < mb.len() && mb[i].0 == k;
            assert(wf_view(mb[c].1));
            assert(index_lookup(mb, k) == mb[c].1);
            lemma_merge_preserves_wf(ma.last().1, index_lookup(mb, k));
            let merged = merge_index_entries(ma, mb);
            assert forall|i0: int, j0: int| 0 <= i0 < j0 < merged.len()
                implies merged[i0].0 != merged[j0].0 by {
                if j0 < merged.len() - 1 {
                    assert(init[i0].0 != init[j0].0);
                } else {
                    let w = choose|i: int| 0 <= i < init_ma.len() && init[i0].0 == init_ma[i].0;
                    assert(init_ma[w].0 != ma.last().0);
                }
            }
            assert forall|j: int| 0 <= j < merged.len()
                implies exists|i: int| 0 <= i < ma.len()
                    && (#[trigger] merged[j]).0 == ma[i].0 by {
                if j < merged.len() - 1 {
                    let w = choose|i: int| 0 <= i < init_ma.len() && init[j].0 == init_ma[i].0;
                    assert(merged[j].0 == ma[w].0);
                } else {
                    assert(merged[j].0 == ma[ma.len() - 1].0);
                }
            }
        } else {
            assert forall|j: int| 0 <= j < merge_index_entries(ma, mb).len()
                implies exists|i: int| 0 <= i < ma.len()
                    && (#[trigger] merge_index_entries(ma, mb)[j]).0 == ma[i].0 by {
                let w = choose|i: int| 0 <= i < init_ma.len() && init[j].0 == init_ma[i].0;
                assert(merge_index_entries(ma, mb)[j].0 == ma[w].0);
            }
        }
    }
}

/// Key-wise merging keeps keys unique, keeps every key from the left
/// map, and yields well-formed nested descriptors.
proof fn lemma_merge_field_entries_wf(
    ma: Seq<(Seq<u8>, TypeDefView)>,
    mb: Seq<(Seq<u8>, TypeDefView)>,
)
    requires
        unique_field_keys(ma),
        unique_field_keys(mb),
        forall|i: int| 0 <= i < ma.len() ==> wf_view(#[trigger] ma[i].1),
        forall|i: int| 0 <= i < mb.len() ==> wf_view(#[trigger] mb[i].1),
    ensures
        unique_field_keys(merge_field_entries(ma, mb)),
        forall|j: int| 0 <= j < merge_field_entries(ma, mb).len()
            ==> wf_view(#[trigger] merge_field_entries(ma, mb)[j].1),
        forall|j: int| 0 <= j < merge_field_entries(ma, mb).len()
            ==> exists|i: int| 0 <= i < ma.len()
                && (#[trigger] merge_field_entries(ma, mb)[j]).0 == ma[i].0,
    decreases ma, 0int,
{
    if ma.len() > 0 {
        let init_ma = ma.drop_last();
        lemma_merge_field_entries_wf(init_ma, mb);
        let init = merge_field_entries(init_ma, mb);
        let k = ma.last().0;
        if has_field_key(mb, k) {
            let c = choose|i: int| 0 <= i < mb.len() && mb[i].0 == k;
            assert(wf_view(mb[c].1));
            assert(field_lookup(mb, k) == mb[c].1);
            lemma_merge_preserves_wf(ma.last().1, field_lookup(mb, k));
            let merged = merge_field_entries(ma, mb);
            assert forall|i0: int, j0: int| 0 <= i0 < j0 < merged.len()
                implies merged[i0].0 != merged[j0].0 by {
                if j0 < merged.len() - 1 {
                    assert(init[i0].0 != init[j0].0);
                } else {
                    let w = choose|i: int| 0 <= i < init_ma.len() && init[i0].0 == init_ma[i].0;
                    assert(init_ma[w].0 != ma.last().0);
                }
            }
            assert forall|j: int| 0 <= j < merged.len()
                implies exists|i: int| 0 <= i < ma.len()
                    && (#[trigger] merged[j]).0 == ma[i].0 by {
                if j < merged.len() - 1 {
                    let w = choose|i: int| 0 <= i < init_ma.len() && init[j].0 == init_ma[i].0;
                    assert(merged[j].0 == ma[w].0);
                } else {
                    assert(merged[j].0 == ma[ma.len() - 1].0);
                }
            }
        } else {
            assert forall|j: int| 0 <= j < merge_field_entries(ma, mb).len()
                implies exists|i: int| 0 <= i < ma.len()
                    && (#[trigger] merge_field_entries(ma, mb)[j]).0 == ma[i].0 by {
                let w = choose|i: int| 0 <= i < init_ma.len() && init[j].0 == init_ma[i].0;
                assert(merge_field_entries(ma, mb)[j].0 == ma[w].0);
            }
        }
    }
}

/// Merging two well-formed descriptors yields a well-formed descriptor.
pub proof fn lemma_merge_preserves_wf(a: TypeDefView, b: TypeDefView)
    requires
        wf_view(a),
        wf_view(b),
    ensures
        wf_view(merge_views(a, b)),
    decreases a, 1int,
{
    let r = merge_views(a, b);
    match (a.array_index_types, b.array_index_types) {
        (Option::Some(ma), Option::Some(mb)) => {
            kind::lemma_union_widens(a.kind, b.kind, kind::ARRAY);
            lemma_merge_index_entries_wf(ma, mb);
        },
        _ => {},
    }
    match (a.object_field_types, b.object_field_types) {
        (Option::Some(ma), Option::Some(mb)) => {
            kind::lemma_union_widens(a.kind, b.kind, kind::OBJECT);
            lemma_merge_field_entries_wf(ma, mb);
        },
        _ => {},
    }
}

/// The merged kind component is commutative (the full merge also keeps
/// the order of the left map's keys, which `merge_views` reflects).
pub proof fn lemma_merge_kind_commutative(a: TypeDefView, b: TypeDefView)
    ensures
        merge_views(a, b).kind == merge_views(b, a).kind,
{
    kind::lemma_union_commutative(a.kind, b.kind);
}

/// The merged kind component is associative.
pub proof fn lemma_merge_kind_associative(a: TypeDefView, b: TypeDefView, c: TypeDefView)
    ensures
        merge_views(merge_views(a, b), c).kind == merge_views(a, merge_views(b, c)).kind,
{
    kind::lemma_union_associative(a.kind, b.kind, c.kind);
}

/// Fallibility is OR-monotone under merging: the result is fallible
/// exactly when either operand is, so merging a fallible descriptor with
/// anything stays fallible.
pub proof fn lemma_merge_fallible_monotone(a: TypeDefView, b: TypeDefView)
    ensures
        merge_views(a, b).fallible == (a.fallible || b.fallible),
        a.fallible ==> merge_views(a, b).fallible,
        b.fallible ==> merge_views(a, b).fallible,
{
}

/// Merging never loses possible kinds: each operand's shape bits survive.
pub proof fn lemma_merge_widens(a: TypeDefView, b: TypeDefView, bits: u16)
    ensures
        a.kind.spec_contains_bits(bits) ==> merge_views(a, b).kind.spec_contains_bits(bits),
        b.kind.spec_contains_bits(bits) ==> merge_views(a, b).kind.spec_contains_bits(bits),
{
    kind::lemma_union_widens(a.kind, b.kind, bits);
}

} // verus!
