//! The order of paths: component by component, a normal component by its
//! characters, a path before every path that it is a proper prefix of.

use crate::path::{Component, PathComponent, component_views, components_of};
use vstd::prelude::*;

verus! {

/// Lexicographic order of sequences over an order `le` of their items: at the
/// first position where they differ the items decide, and a sequence comes
/// before those that it is a prefix of.
pub open spec fn lex_le<T>(a: Seq<T>, b: Seq<T>, le: spec_fn(T, T) -> bool) -> bool
    decreases a.len(),
{
    if a.len() == 0 {
        true
    } else if b.len() == 0 {
        false
    } else if a[0] == b[0] {
        lex_le(a.drop_first(), b.drop_first(), le)
    } else {
        le(a[0], b[0])
    }
}

/// Whether `le` is a total order: reflexive, antisymmetric, transitive, and
/// defined on every pair.
pub open spec fn is_total_order<T>(le: spec_fn(T, T) -> bool) -> bool {
    &&& forall|x: T| #[trigger] le(x, x)
    &&& forall|x: T, y: T| #[trigger] le(x, y) || le(y, x)
    &&& forall|x: T, y: T| #[trigger] le(x, y) && le(y, x) ==> x == y
    &&& forall|x: T, y: T, z: T| #[trigger] le(x, y) && #[trigger] le(y, z) ==> le(x, z)
}

/// Every sequence is at most itself.
pub proof fn lemma_lex_reflexive<T>(a: Seq<T>, le: spec_fn(T, T) -> bool)
    ensures
        lex_le(a, a, le),
    decreases a.len(),
{
    if a.len() > 0 {
        lemma_lex_reflexive(a.drop_first(), le);
    }
}

/// Of two sequences one is at most the other.
pub proof fn lemma_lex_total<T>(a: Seq<T>, b: Seq<T>, le: spec_fn(T, T) -> bool)
    requires
        is_total_order(le),
    ensures
        lex_le(a, b, le) || lex_le(b, a, le),
    decreases a.len(),
{
    if a.len() > 0 && b.len() > 0 {
        if a[0] == b[0] {
            lemma_lex_total(a.drop_first(), b.drop_first(), le);
        } else {
            assert(le(a[0], b[0]) || le(b[0], a[0]));
        }
    }
}

/// Two sequences that are each at most the other are equal.
pub proof fn lemma_lex_antisymmetric<T>(a: Seq<T>, b: Seq<T>, le: spec_fn(T, T) -> bool)
    requires
        is_total_order(le),
        lex_le(a, b, le),
        lex_le(b, a, le),
    ensures
        a == b,
    decreases a.len(),
{
    if a.len() == 0 || b.len() == 0 {
        assert(a =~= b);
    } else if a[0] == b[0] {
        lemma_lex_antisymmetric(a.drop_first(), b.drop_first(), le);
        assert(a =~= seq![a[0]] + a.drop_first());
        assert(b =~= seq![b[0]] + b.drop_first());
    } else {
        assert(le(a[0], b[0]) && le(b[0], a[0]));
    }
}

/// The order passes along a chain of three sequences.
pub proof fn lemma_lex_transitive<T>(a: Seq<T>, b: Seq<T>, c: Seq<T>, le: spec_fn(T, T) -> bool)
    requires
        is_total_order(le),
        lex_le(a, b, le),
        lex_le(b, c, le),
    ensures
        lex_le(a, c, le),
    decreases a.len(),
{
    if a.len() > 0 {
        if a[0] == b[0] {
            if b[0] == c[0] {
                lemma_lex_transitive(a.drop_first(), b.drop_first(), c.drop_first(), le);
            }
        } else {
            if b[0] == c[0] {
            } else {
                assert(le(a[0], b[0]) && le(b[0], c[0]));
                assert(le(a[0], c[0]));
                if a[0] == c[0] {
                    assert(le(c[0], b[0]));
                    assert(false);
                }
            }
        }
    }
}

/// The order of characters by their code points.
pub open spec fn char_le() -> spec_fn(char, char) -> bool {
    |x: char, y: char| x <= y
}

/// Text in lexicographic order of its characters.
pub open spec fn chars_le(a: Seq<char>, b: Seq<char>) -> bool {
    lex_le(a, b, char_le())
}

/// The place of a kind of component among the kinds: the root first, then a
/// leading `.`, then `..`, then the normal components.
pub open spec fn component_rank(c: PathComponent) -> int {
    match c {
        PathComponent::RootDir => 0,
        PathComponent::CurDir => 1,
        PathComponent::ParentDir => 2,
        PathComponent::Normal(_) => 3,
    }
}

/// The order of components: by kind, and two normal components by their text.
pub open spec fn component_le() -> spec_fn(PathComponent, PathComponent) -> bool {
    |a: PathComponent, b: PathComponent|
        match (a, b) {
            (PathComponent::Normal(x), PathComponent::Normal(y)) => chars_le(x, y),
            _ => component_rank(a) <= component_rank(b),
        }
}

/// Component lists in lexicographic order of their components.
pub open spec fn components_le(a: Seq<PathComponent>, b: Seq<PathComponent>) -> bool {
    lex_le(a, b, component_le())
}

/// The order of paths: that of their component lists.
pub open spec fn path_le(a: Seq<char>, b: Seq<char>) -> bool {
    components_le(components_of(a), components_of(b))
}

/// The order of components is a total order.
pub proof fn lemma_component_order()
    ensures
        is_total_order(char_le()),
        is_total_order(component_le()),
{
    let cl = char_le();
    assert(is_total_order(cl));
    let le = component_le();
    assert forall|x: PathComponent| #[trigger] le(x, x) by {
        if let PathComponent::Normal(s) = x {
            lemma_lex_reflexive(s, cl);
        }
    }
    assert forall|x: PathComponent, y: PathComponent| #[trigger] le(x, y) || le(y, x) by {
        if let PathComponent::Normal(s) = x {
            if let PathComponent::Normal(t) = y {
                lemma_lex_total(s, t, cl);
            }
        }
    }
    assert forall|x: PathComponent, y: PathComponent| #[trigger]
        le(x, y) && le(y, x) implies x == y by {
        if let PathComponent::Normal(s) = x {
            if let PathComponent::Normal(t) = y {
                lemma_lex_antisymmetric(s, t, cl);
            }
        }
    }
    assert forall|x: PathComponent, y: PathComponent, z: PathComponent| #[trigger]
        le(x, y) && #[trigger] le(y, z) implies le(x, z) by {
        if let PathComponent::Normal(s) = x {
            if let PathComponent::Normal(t) = y {
                if let PathComponent::Normal(u) = z {
                    lemma_lex_transitive(s, t, u, cl);
                }
            }
        }
    }
}

/// The order of paths is reflexive, defined on every pair, and transitive.
/// Two different texts with the same components are each at most the other.
pub proof fn lemma_path_order(a: Seq<char>, b: Seq<char>, c: Seq<char>)
    ensures
        path_le(a, a),
        path_le(a, b) || path_le(b, a),
        path_le(a, b) && path_le(b, c) ==> path_le(a, c),
{
    lemma_component_order();
    let le = component_le();
    lemma_lex_reflexive(components_of(a), le);
    lemma_lex_total(components_of(a), components_of(b), le);
    if path_le(a, b) && path_le(b, c) {
        lemma_lex_transitive(components_of(a), components_of(b), components_of(c), le);
    }
}

/// Whether `a` comes at or before `b` in the order of text.
pub fn chars_at_most(a: &Vec<char>, b: &Vec<char>) -> (r: bool)
    ensures
        r == chars_le(a@, b@),
{
    let mut i: usize = 0;
    assert(a@.skip(0) =~= a@ && b@.skip(0) =~= b@);
    while i < a.len() && i < b.len()
        invariant
            i <= a.len(),
            i <= b.len(),
            chars_le(a@, b@) == chars_le(a@.skip(i as int), b@.skip(i as int)),
        decreases a.len() - i,
    {
        assert(a@.skip(i as int)[0] == a@[i as int]);
        assert(b@.skip(i as int)[0] == b@[i as int]);
        assert(a@.skip(i as int).drop_first() =~= a@.skip(i + 1));
        assert(b@.skip(i as int).drop_first() =~= b@.skip(i + 1));
        if a[i] != b[i] {
            return a[i] < b[i];
        }
        i += 1;
    }
    i == a.len()
}

/// Whether two components are the same.
pub fn same_component(a: &Component, b: &Component) -> (r: bool)
    ensures
        r == (a@ == b@),
{
    match (a, b) {
        (Component::RootDir, Component::RootDir) => true,
        (Component::CurDir, Component::CurDir) => true,
        (Component::ParentDir, Component::ParentDir) => true,
        (Component::Normal(x), Component::Normal(y)) => {
            let r = crate::text::range_eq(x, 0, x.len(), y);
            assert(x@.subrange(0, x.len() as int) =~= x@);
            r
        },
        _ => false,
    }
}

/// The place of the kind of a component among the kinds.
pub fn rank_of(c: &Component) -> (r: u8)
    ensures
        r == component_rank(c@),
{
    match c {
        Component::RootDir => 0,
        Component::CurDir => 1,
        Component::ParentDir => 2,
        Component::Normal(_) => 3,
    }
}

/// Whether the component `a` comes at or before `b`.
pub fn component_at_most(a: &Component, b: &Component) -> (r: bool)
    ensures
        r == component_le()(a@, b@),
{
    match (a, b) {
        (Component::Normal(x), Component::Normal(y)) => chars_at_most(x, y),
        _ => rank_of(a) <= rank_of(b),
    }
}

/// Whether the component list `a` comes at or before `b`.
pub fn components_at_most(a: &Vec<Component>, b: &Vec<Component>) -> (r: bool)
    ensures
        r == components_le(component_views(a@), component_views(b@)),
{
    let ghost av = component_views(a@);
    let ghost bv = component_views(b@);
    let mut i: usize = 0;
    assert(av.skip(0) =~= av && bv.skip(0) =~= bv);
    while i < a.len() && i < b.len()
        invariant
            av == component_views(a@),
            bv == component_views(b@),
            i <= a.len(),
            i <= b.len(),
            components_le(av, bv) == components_le(av.skip(i as int), bv.skip(i as int)),
        decreases a.len() - i,
    {
        assert(av.skip(i as int)[0] == a@[i as int]@);
        assert(bv.skip(i as int)[0] == b@[i as int]@);
        assert(av.skip(i as int).drop_first() =~= av.skip(i + 1));
        assert(bv.skip(i as int).drop_first() =~= bv.skip(i + 1));
        if !same_component(&a[i], &b[i]) {
            return component_at_most(&a[i], &b[i]);
        }
        i += 1;
    }
    i == a.len()
}

} // verus!
