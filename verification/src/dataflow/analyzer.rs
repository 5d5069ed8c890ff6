use vstd::prelude::*;

use crate::dataflow::path::{ArrayDataKind, PathKind};

verus! {

/// Walking the earlier steps from the last one back, with `nesting` accesses
/// of the same kind still to be matched: whether an array access is not
/// matched by an assignment at its nesting level. An unknown assignment at
/// that level matches any access; a known one matches an access of the same
/// key.
pub open spec fn array_access_unmatched(
    path_type: PathKind,
    match_kind: ArrayDataKind,
    previous: Seq<PathKind>,
    nesting: nat,
) -> bool
    decreases previous.len(),
{
    if previous.len() == 0 {
        true
    } else {
        let rest = previous.drop_last();
        match previous.last() {
            PathKind::UnknownArrayAssignment(inner) if inner == match_kind => {
                if nesting == 0 {
                    false
                } else {
                    array_access_unmatched(path_type, match_kind, rest, (nesting - 1) as nat)
                }
            },
            PathKind::ArrayAssignment(inner, assigned) if inner == match_kind => {
                if nesting == 0 {
                    match path_type {
                        PathKind::ArrayAccess(_, fetched) => fetched@ != assigned@,
                        _ => true,
                    }
                } else {
                    array_access_unmatched(path_type, match_kind, rest, (nesting - 1) as nat)
                }
            },
            PathKind::UnknownArrayAccess(inner) if inner == match_kind => {
                array_access_unmatched(path_type, match_kind, rest, nesting + 1)
            },
            PathKind::ArrayAccess(inner, _) if inner == match_kind => {
                array_access_unmatched(path_type, match_kind, rest, nesting + 1)
            },
            _ => array_access_unmatched(path_type, match_kind, rest, nesting),
        }
    }
}

/// The last step that is not `Default`, if any.
pub open spec fn last_non_default(previous: Seq<PathKind>) -> Option<PathKind>
    decreases previous.len(),
{
    if previous.len() == 0 {
        None
    } else if previous.last() is Default {
        last_non_default(previous.drop_last())
    } else {
        Some(previous.last())
    }
}

/// Whether an array step reads the part of the array that `match_kind` names.
pub open spec fn is_relevant_array_access(path_type: PathKind, match_kind: ArrayDataKind) -> bool {
    match path_type {
        PathKind::ArrayAccess(inner, _) => inner == match_kind,
        PathKind::UnknownArrayAccess(ArrayDataKind::ArrayKey) => match_kind
            == ArrayDataKind::ArrayValue,
        _ => false,
    }
}

/// When an array step is to be ignored: a relevant access that no assignment
/// at its nesting level matches, or the removal of the key that the last
/// non-default step assigned a value to.
pub open spec fn spec_should_ignore_array_access(
    path_type: PathKind,
    match_kind: ArrayDataKind,
    previous: Seq<PathKind>,
) -> bool {
    if is_relevant_array_access(path_type, match_kind) {
        array_access_unmatched(path_type, match_kind, previous, 0)
    } else {
        match path_type {
            PathKind::RemoveArrayKey(key_name) => {
                &&& match_kind == ArrayDataKind::ArrayValue
                &&& last_non_default(previous) matches Some(
                    PathKind::ArrayAssignment(ArrayDataKind::ArrayValue, assigned),
                )
                &&& assigned@ == key_name@
            },
            _ => false,
        }
    }
}

/// Walking the earlier steps from the last one back: whether a property
/// access is not matched by a property assignment at its nesting level.
pub open spec fn property_access_unmatched(
    path_kind: PathKind,
    previous: Seq<PathKind>,
    nesting: nat,
) -> bool
    decreases previous.len(),
{
    if previous.len() == 0 {
        true
    } else {
        let rest = previous.drop_last();
        match previous.last() {
            PathKind::UnknownPropertyAssignment => {
                if nesting == 0 {
                    false
                } else {
                    property_access_unmatched(path_kind, rest, (nesting - 1) as nat)
                }
            },
            PathKind::PropertyAssignment(_, assigned) => {
                if nesting == 0 {
                    match path_kind {
                        PathKind::PropertyAccess(_, fetched) => fetched@ != assigned@,
                        _ => true,
                    }
                } else {
                    property_access_unmatched(path_kind, rest, (nesting - 1) as nat)
                }
            },
            PathKind::UnknownPropertyAccess => property_access_unmatched(
                path_kind,
                rest,
                nesting + 1,
            ),
            PathKind::PropertyAccess(_, _) => property_access_unmatched(path_kind, rest, nesting + 1),
            _ => property_access_unmatched(path_kind, rest, nesting),
        }
    }
}

/// When a property step is to be ignored: it is an access that no property
/// assignment at its nesting level matches.
pub open spec fn spec_should_ignore_property_access(path_kind: PathKind, previous: Seq<PathKind>) -> bool {
    match path_kind {
        PathKind::PropertyAccess(_, _) => property_access_unmatched(path_kind, previous, 0),
        _ => false,
    }
}

/// With `nesting` levels open, an unknown access of the matched kind among
/// the earlier steps counts as an access with any known key.
proof fn lemma_unknown_array_access_counts(
    path_type: PathKind,
    match_kind: ArrayDataKind,
    pre: Seq<PathKind>,
    post: Seq<PathKind>,
    key: String,
    nesting: nat,
)
    ensures
        array_access_unmatched(
            path_type,
            match_kind,
            pre.push(PathKind::UnknownArrayAccess(match_kind)) + post,
            nesting,
        ) == array_access_unmatched(
            path_type,
            match_kind,
            pre.push(PathKind::ArrayAccess(match_kind, key)) + post,
            nesting,
        ),
    decreases post.len(),
{
    let u = pre.push(PathKind::UnknownArrayAccess(match_kind)) + post;
    let a = pre.push(PathKind::ArrayAccess(match_kind, key)) + post;
    if post.len() == 0 {
        assert(u.drop_last() =~= pre);
        assert(a.drop_last() =~= pre);
        assert(u.last() == PathKind::UnknownArrayAccess(match_kind));
        assert(a.last() == PathKind::ArrayAccess(match_kind, key));
    } else {
        assert(u.drop_last() =~= pre.push(PathKind::UnknownArrayAccess(match_kind)) + post.drop_last());
        assert(a.drop_last() =~= pre.push(PathKind::ArrayAccess(match_kind, key)) + post.drop_last());
        assert(u.last() == post.last());
        assert(a.last() == post.last());
        if nesting > 0 {
            lemma_unknown_array_access_counts(path_type, match_kind, pre, post.drop_last(), key, (nesting - 1) as nat);
        }
        lemma_unknown_array_access_counts(path_type, match_kind, pre, post.drop_last(), key, nesting);
        lemma_unknown_array_access_counts(path_type, match_kind, pre, post.drop_last(), key, nesting + 1);
    }
}

/// The last non-default step of `pre`, `x`, `post` when `x` is not
/// `Default`: that of `post`, else `x`.
proof fn lemma_last_non_default_split(pre: Seq<PathKind>, x: PathKind, post: Seq<PathKind>)
    requires
        !(x is Default),
    ensures
        last_non_default(pre.push(x) + post) == match last_non_default(post) {
            Some(p) => Some(p),
            None => Some(x),
        },
    decreases post.len(),
{
    let s = pre.push(x) + post;
    if post.len() == 0 {
        assert(s =~= pre.push(x));
    } else {
        assert(s.drop_last() =~= pre.push(x) + post.drop_last());
        assert(s.last() == post.last());
        lemma_last_non_default_split(pre, x, post.drop_last());
    }
}

/// An access of the matched kind among the earlier steps opens a nesting
/// level whether its key is known or not: replacing an access with a known
/// key by an unknown access changes no answer.
pub proof fn lemma_unknown_array_access_like_known(
    path_type: PathKind,
    match_kind: ArrayDataKind,
    pre: Seq<PathKind>,
    post: Seq<PathKind>,
    key: String,
)
    ensures
        spec_should_ignore_array_access(
            path_type,
            match_kind,
            pre.push(PathKind::UnknownArrayAccess(match_kind)) + post,
        ) == spec_should_ignore_array_access(
            path_type,
            match_kind,
            pre.push(PathKind::ArrayAccess(match_kind, key)) + post,
        ),
{
    lemma_unknown_array_access_counts(path_type, match_kind, pre, post, key, 0);
    lemma_last_non_default_split(pre, PathKind::UnknownArrayAccess(match_kind), post);
    lemma_last_non_default_split(pre, PathKind::ArrayAccess(match_kind, key), post);
}

/// A later access and an earlier assignment of the matched kind close each
/// other's nesting level: appending an assignment and then an access to the
/// earlier steps changes nothing for a relevant access.
pub proof fn lemma_array_access_assignment_pair_cancels(
    path_type: PathKind,
    match_kind: ArrayDataKind,
    pre: Seq<PathKind>,
    assigned: String,
    fetched: String,
)
    requires
        is_relevant_array_access(path_type, match_kind),
    ensures
        spec_should_ignore_array_access(
            path_type,
            match_kind,
            pre.push(PathKind::ArrayAssignment(match_kind, assigned)).push(PathKind::ArrayAccess(match_kind, fetched)),
        ) == spec_should_ignore_array_access(path_type, match_kind, pre),
{
    let s = pre.push(PathKind::ArrayAssignment(match_kind, assigned)).push(PathKind::ArrayAccess(match_kind, fetched));
    assert(s.drop_last() == pre.push(PathKind::ArrayAssignment(match_kind, assigned)));
    assert(s.drop_last().drop_last() == pre);
    assert(array_access_unmatched(path_type, match_kind, s, 0) == array_access_unmatched(
        path_type,
        match_kind,
        s.drop_last(),
        1,
    ));
    assert(array_access_unmatched(path_type, match_kind, s.drop_last(), 1) == array_access_unmatched(
        path_type,
        match_kind,
        pre,
        0,
    ));
}

/// An access is matched by the assignment just before it exactly when the
/// keys agree, whatever came earlier.
pub proof fn lemma_array_access_after_assignment(
    match_kind: ArrayDataKind,
    pre: Seq<PathKind>,
    assigned: String,
    fetched: String,
)
    ensures
        spec_should_ignore_array_access(
            PathKind::ArrayAccess(match_kind, fetched),
            match_kind,
            pre.push(PathKind::ArrayAssignment(match_kind, assigned)),
        ) == (fetched@ != assigned@),
{
    let s = pre.push(PathKind::ArrayAssignment(match_kind, assigned));
    assert(s.last() == PathKind::ArrayAssignment(match_kind, assigned));
}

/// With `nesting` levels open, an unknown property access among the earlier
/// steps counts as an access of any known property.
proof fn lemma_unknown_property_access_counts(
    path_kind: PathKind,
    pre: Seq<PathKind>,
    post: Seq<PathKind>,
    class: String,
    property: String,
    nesting: nat,
)
    ensures
        property_access_unmatched(path_kind, pre.push(PathKind::UnknownPropertyAccess) + post, nesting)
            == property_access_unmatched(
            path_kind,
            pre.push(PathKind::PropertyAccess(class, property)) + post,
            nesting,
        ),
    decreases post.len(),
{
    let u = pre.push(PathKind::UnknownPropertyAccess) + post;
    let a = pre.push(PathKind::PropertyAccess(class, property)) + post;
    if post.len() == 0 {
        assert(u.drop_last() =~= pre);
        assert(a.drop_last() =~= pre);
        assert(u.last() == PathKind::UnknownPropertyAccess);
        assert(a.last() == PathKind::PropertyAccess(class, property));
    } else {
        assert(u.drop_last() =~= pre.push(PathKind::UnknownPropertyAccess) + post.drop_last());
        assert(a.drop_last() =~= pre.push(PathKind::PropertyAccess(class, property)) + post.drop_last());
        assert(u.last() == post.last());
        assert(a.last() == post.last());
        if nesting > 0 {
            lemma_unknown_property_access_counts(path_kind, pre, post.drop_last(), class, property, (nesting - 1) as nat);
        }
        lemma_unknown_property_access_counts(path_kind, pre, post.drop_last(), class, property, nesting);
        lemma_unknown_property_access_counts(path_kind, pre, post.drop_last(), class, property, nesting + 1);
    }
}

/// An unknown property access among the earlier steps opens a nesting level
/// just as a known one does: replacing a known property access by an
/// unknown one changes no answer.
pub proof fn lemma_unknown_property_access_like_known(
    path_kind: PathKind,
    pre: Seq<PathKind>,
    post: Seq<PathKind>,
    class: String,
    property: String,
)
    ensures
        spec_should_ignore_property_access(path_kind, pre.push(PathKind::UnknownPropertyAccess) + post)
            == spec_should_ignore_property_access(
            path_kind,
            pre.push(PathKind::PropertyAccess(class, property)) + post,
        ),
{
    lemma_unknown_property_access_counts(path_kind, pre, post, class, property, 0);
}

/// A later property access and an earlier property assignment close each
/// other's nesting level: appending them to the earlier steps changes
/// nothing.
pub proof fn lemma_property_access_assignment_pair_cancels(
    path_kind: PathKind,
    pre: Seq<PathKind>,
    assigned_class: String,
    assigned: String,
    fetched_class: String,
    fetched: String,
)
    ensures
        spec_should_ignore_property_access(
            path_kind,
            pre.push(PathKind::PropertyAssignment(assigned_class, assigned)).push(
                PathKind::PropertyAccess(fetched_class, fetched),
            ),
        ) == spec_should_ignore_property_access(path_kind, pre),
{
    let s = pre.push(PathKind::PropertyAssignment(assigned_class, assigned)).push(
        PathKind::PropertyAccess(fetched_class, fetched),
    );
    assert(s.drop_last() == pre.push(PathKind::PropertyAssignment(assigned_class, assigned)));
    assert(s.drop_last().drop_last() == pre);
    assert(property_access_unmatched(path_kind, s, 0) == property_access_unmatched(path_kind, s.drop_last(), 1));
    assert(property_access_unmatched(path_kind, s.drop_last(), 1) == property_access_unmatched(path_kind, pre, 0));
}

/// A property access is matched by the property assignment just before it
/// exactly when the property names agree, whatever came earlier.
pub proof fn lemma_property_access_after_assignment(
    pre: Seq<PathKind>,
    assigned_class: String,
    assigned: String,
    fetched_class: String,
    fetched: String,
)
    ensures
        spec_should_ignore_property_access(
            PathKind::PropertyAccess(fetched_class, fetched),
            pre.push(PathKind::PropertyAssignment(assigned_class, assigned)),
        ) == (fetched@ != assigned@),
{
    let s = pre.push(PathKind::PropertyAssignment(assigned_class, assigned));
    assert(s.last() == PathKind::PropertyAssignment(assigned_class, assigned));
}

/// Whether two array kinds are the same.
fn same_kind(a: &ArrayDataKind, b: &ArrayDataKind) -> (r: bool)
    ensures
        r == (*a == *b),
{
    match (a, b) {
        (ArrayDataKind::ArrayKey, ArrayDataKind::ArrayKey) => true,
        (ArrayDataKind::ArrayValue, ArrayDataKind::ArrayValue) => true,
        _ => false,
    }
}

/// Determines if an array access path should be ignored during data flow
/// analysis, typically because it is not matched by a corresponding
/// assignment at the correct nesting level.
pub fn should_ignore_array_access(
    path_type: &PathKind,
    match_kind: &ArrayDataKind,
    previous_path_types: &[PathKind],
) -> (r: bool)
    ensures
        r == spec_should_ignore_array_access(*path_type, *match_kind, previous_path_types@),
{
    let is_relevant_access = match path_type {
        PathKind::ArrayAccess(inner_expression_kind, _) => same_kind(inner_expression_kind, match_kind),
        PathKind::UnknownArrayAccess(ArrayDataKind::ArrayKey) => same_kind(
            match_kind,
            &ArrayDataKind::ArrayValue,
        ),
        _ => false,
    };
    let ghost prev = previous_path_types@;
    if is_relevant_access {
        let mut fetch_nesting: usize = 0;
        let mut i: usize = previous_path_types.len();
        assert(prev.take(i as int) =~= prev);
        while i > 0
            invariant
                i <= prev.len(),
                prev == previous_path_types@,
                fetch_nesting <= prev.len() - i,
                is_relevant_array_access(*path_type, *match_kind),
                spec_should_ignore_array_access(*path_type, *match_kind, prev)
                    == array_access_unmatched(*path_type, *match_kind, prev.take(i as int), fetch_nesting as nat),
            decreases i,
        {
            let ghost before = prev.take(i as int);
            assert(before.drop_last() =~= prev.take(i - 1));
            assert(before.last() == prev[i - 1]);
            let previous_path_type = &previous_path_types[i - 1];
            match previous_path_type {
                PathKind::UnknownArrayAssignment(inner) if same_kind(inner, match_kind) => {
                    if fetch_nesting == 0 {
                        return false;
                    }
                    fetch_nesting = fetch_nesting - 1;
                },
                PathKind::ArrayAssignment(inner, previous_assignment_value) if same_kind(inner, match_kind) => {
                    if fetch_nesting == 0 {
                        if let PathKind::ArrayAccess(_, fetch_value) = path_type {
                            if *fetch_value == *previous_assignment_value {
                                return false;
                            }
                            return true;
                        }
                        return true;
                    }
                    fetch_nesting = fetch_nesting - 1;
                },
                PathKind::UnknownArrayAccess(inner) if same_kind(inner, match_kind) => {
                    fetch_nesting = fetch_nesting + 1;
                },
                PathKind::ArrayAccess(inner, _) if same_kind(inner, match_kind) => {
                    fetch_nesting = fetch_nesting + 1;
                },
                _ => {},
            }
            i = i - 1;
        }
        return true;
    }
    if let PathKind::RemoveArrayKey(key_name) = path_type {
        if same_kind(match_kind, &ArrayDataKind::ArrayValue) {
            let mut i: usize = previous_path_types.len();
            assert(prev.take(i as int) =~= prev);
            while i > 0
                invariant
                    i <= prev.len(),
                    prev == previous_path_types@,
                    last_non_default(prev) == last_non_default(prev.take(i as int)),
                    !is_relevant_array_access(*path_type, *match_kind),
                    *path_type == PathKind::RemoveArrayKey(*key_name),
                    *match_kind == ArrayDataKind::ArrayValue,
                decreases i,
            {
                let ghost before = prev.take(i as int);
                assert(before.drop_last() =~= prev.take(i - 1));
                assert(before.last() == prev[i - 1]);
                match &previous_path_types[i - 1] {
                    PathKind::Default => {},
                    PathKind::ArrayAssignment(ArrayDataKind::ArrayValue, assigned_name) => {
                        return *assigned_name == *key_name;
                    },
                    _ => {
                        return false;
                    },
                }
                i = i - 1;
            }
        }
    }
    false
}

/// Determines if a property access path should be ignored during data flow
/// analysis, like the array access rule but for object properties.
pub fn should_ignore_property_access(path_kind: &PathKind, previous_path_kinds: &[PathKind]) -> (r:
    bool)
    ensures
        r == spec_should_ignore_property_access(*path_kind, previous_path_kinds@),
{
    if let PathKind::PropertyAccess(_, _) = path_kind {
        let ghost prev = previous_path_kinds@;
        let mut fetch_nesting: usize = 0;
        let mut i: usize = previous_path_kinds.len();
        assert(prev.take(i as int) =~= prev);
        while i > 0
            invariant
                i <= prev.len(),
                prev == previous_path_kinds@,
                fetch_nesting <= prev.len() - i,
                path_kind is PropertyAccess,
                spec_should_ignore_property_access(*path_kind, prev) == property_access_unmatched(
                    *path_kind,
                    prev.take(i as int),
                    fetch_nesting as nat,
                ),
            decreases i,
        {
            let ghost before = prev.take(i as int);
            assert(before.drop_last() =~= prev.take(i - 1));
            assert(before.last() == prev[i - 1]);
            match &previous_path_kinds[i - 1] {
                PathKind::UnknownPropertyAssignment => {
                    if fetch_nesting == 0 {
                        return false;
                    }
                    fetch_nesting = fetch_nesting - 1;
                },
                PathKind::PropertyAssignment(_, previous_assignment_value) => {
                    if fetch_nesting == 0 {
                        if let PathKind::PropertyAccess(_, fetch_value) = path_kind {
                            if *fetch_value == *previous_assignment_value {
                                return false;
                            }
                            return true;
                        }
                        return true;
                    }
                    fetch_nesting = fetch_nesting - 1;
                },
                PathKind::UnknownPropertyAccess | PathKind::PropertyAccess(_, _) => {
                    fetch_nesting = fetch_nesting + 1;
                },
                _ => {},
            }
            i = i - 1;
        }
        assert(prev.take(0) =~= Seq::<PathKind>::empty());
        return true;
    }
    false
}

} // verus!
