//! Textual field-path addressing.
//!
//! A field path addresses a leaf of a nested model: segments joined by `.`,
//! as in `"parent.child.0.leaf"`. Paths are kept as plain strings; this
//! module provides the split and join operations together with their
//! specification-level counterparts.

use vstd::prelude::*;

verus! {

/// Position of the first `.` in `s`, or `s.len()` if there is none.
pub open spec fn dot_index(s: Seq<char>) -> nat
    decreases s.len(),
{
    if s.len() == 0 {
        0
    } else if s[0] == '.' {
        0
    } else {
        1 + dot_index(s.drop_first())
    }
}

/// First segment of a dotted path (the whole path if there is no separator).
pub open spec fn spec_head(s: Seq<char>) -> Seq<char> {
    s.subrange(0, dot_index(s) as int)
}

/// Remainder of a dotted path after the first segment; empty at a leaf.
pub open spec fn spec_rest(s: Seq<char>) -> Seq<char> {
    if dot_index(s) == s.len() {
        Seq::empty()
    } else {
        s.subrange(dot_index(s) + 1int, s.len() as int)
    }
}

/// Joined path: an empty prefix or an empty suffix yields the other side
/// verbatim; otherwise the two are joined with a separator.
pub open spec fn spec_join(prefix: Seq<char>, suffix: Seq<char>) -> Seq<char> {
    if prefix.len() == 0 {
        suffix
    } else if suffix.len() == 0 {
        prefix
    } else {
        prefix + seq!['.'] + suffix
    }
}

/// `dot_index` is in bounds, everything before it is dot-free, and it points
/// at a dot whenever one exists.
pub proof fn lemma_dot_index(s: Seq<char>)
    ensures
        dot_index(s) <= s.len(),
        forall|i: int| 0 <= i < dot_index(s) ==> s[i] != '.',
        dot_index(s) < s.len() ==> s[dot_index(s) as int] == '.',
    decreases s.len(),
{
    if s.len() == 0 {
    } else if s[0] == '.' {
    } else {
        lemma_dot_index(s.drop_first());
        assert forall|i: int| 0 <= i < dot_index(s) implies s[i] != '.' by {
            if i > 0 {
                assert(s.drop_first()[i - 1] == s[i]);
            }
        }
        if dot_index(s) < s.len() {
            assert(s.drop_first()[dot_index(s) - 1] == s[dot_index(s) as int]);
        }
    }
}

/// Splitting a joined path recovers the parts, provided the head is a
/// nonempty segment that contains no separator.
pub proof fn lemma_split_of_join(head: Seq<char>, rest: Seq<char>)
    requires
        head.len() > 0,
        forall|i: int| 0 <= i < head.len() ==> head[i] != '.',
    ensures
        spec_head(spec_join(head, rest)) == head,
        spec_rest(spec_join(head, rest)) == rest,
{
    let s = spec_join(head, rest);
    lemma_dot_index(s);
    if rest.len() == 0 {
        assert(s == head);
        if dot_index(s) < s.len() {
            assert(s[dot_index(s) as int] == '.');
            assert(false);
        }
        assert(spec_head(s) =~= head);
        assert(spec_rest(s) =~= rest);
    } else {
        assert(s[head.len() as int] == '.');
        if dot_index(s) > head.len() {
            assert(s[head.len() as int] != '.');
            assert(false);
        }
        if dot_index(s) < head.len() {
            assert(s[dot_index(s) as int] == head[dot_index(s) as int]);
            assert(false);
        }
        assert(spec_head(s) =~= head);
        assert(spec_rest(s) =~= rest);
    }
}

/// Joining is associative around a nonempty middle segment.
pub proof fn lemma_join_assoc(a: Seq<char>, b: Seq<char>, c: Seq<char>)
    requires
        b.len() > 0,
    ensures
        spec_join(spec_join(a, b), c) == spec_join(a, spec_join(b, c)),
{
    if a.len() == 0 {
    } else if c.len() == 0 {
    } else {
        assert(spec_join(spec_join(a, b), c) =~= spec_join(a, spec_join(b, c)));
    }
}

/// The path rebuilt by taking the first segment, recursing on the remainder,
/// and joining the pieces back together.
pub open spec fn rejoin(s: Seq<char>) -> Seq<char>
    decreases s.len(),
    via rejoin_decreases
{
    if spec_rest(s).len() == 0 {
        spec_head(s)
    } else {
        spec_join(spec_head(s), rejoin(spec_rest(s)))
    }
}

#[via_fn]
proof fn rejoin_decreases(s: Seq<char>) {
    lemma_dot_index(s);
}

/// No segment of `s` is empty: `s` does not begin or end with a separator
/// and no two separators are adjacent. Holds vacuously for the empty path.
pub open spec fn no_empty_segments(s: Seq<char>) -> bool {
    s.len() > 0 ==> {
        &&& s[0] != '.'
        &&& s[s.len() - 1] != '.'
        &&& forall|i: int| 0 <= i < s.len() - 1 ==> !(#[trigger] s[i] == '.' && s[i + 1] == '.')
    }
}

/// Path round trip: for a path with no empty segments, repeatedly splitting
/// off the first segment and joining the chain back together reproduces the
/// original path.
pub proof fn lemma_path_round_trip(s: Seq<char>)
    requires
        no_empty_segments(s),
    ensures
        rejoin(s) == s,
    decreases s.len(),
{
    lemma_dot_index(s);
    let d = dot_index(s) as int;
    if spec_rest(s).len() == 0 {
        if d < s.len() {
            assert(s[s.len() - 1] == '.');
            assert(false);
        }
        assert(spec_head(s) =~= s);
    } else {
        let rest = spec_rest(s);
        assert(s[d] == '.');
        assert(d > 0);
        assert(rest[0] == s[d + 1]);
        assert(rest[0] != '.');
        assert(rest[rest.len() - 1] == s[s.len() - 1]);
        assert forall|i: int| 0 <= i < rest.len() - 1 implies !(#[trigger] rest[i] == '.'
            && rest[i + 1] == '.') by {
            assert(rest[i] == s[d + 1 + i]);
            assert(rest[i + 1] == s[d + 1 + i + 1]);
        }
        lemma_path_round_trip(rest);
        assert(spec_head(s).len() > 0);
        assert(spec_join(spec_head(s), rest) =~= s);
    }
}

/// Splits a dotted field path into its first segment and the remaining
/// dotted path; the remainder is empty at a leaf.
pub fn split_field_path(field_path: &str) -> (r: (&str, &str))
    ensures
        r.0@ == spec_head(field_path@),
        r.1@ == spec_rest(field_path@),
{
    let n = field_path.unicode_len();
    let mut i: usize = 0;
    while i < n
        invariant
            0 <= i <= n,
            n == field_path@.len(),
            forall|j: int| 0 <= j < i ==> field_path@[j] != '.',
        decreases n - i,
    {
        if field_path.get_char(i) == '.' {
            proof {
                lemma_dot_index(field_path@);
                let d = dot_index(field_path@);
                if d < i {
                    assert(field_path@[d as int] != '.');
                    assert(false);
                }
                if d > i {
                    assert(field_path@[i as int] != '.');
                    assert(false);
                }
            }
            let head = field_path.substring_char(0, i);
            let rest = field_path.substring_char(i + 1, n);
            return (head, rest);
        }
        i += 1;
    }
    proof {
        lemma_dot_index(field_path@);
        let d = dot_index(field_path@);
        if d < n {
            assert(field_path@[d as int] == '.');
            assert(false);
        }
        assert(spec_head(field_path@) =~= field_path@);
        reveal_strlit("");
        assert(""@ =~= spec_rest(field_path@));
    }
    (field_path, "")
}

/// Character-for-character string equality.
pub fn str_eq(a: &str, b: &str) -> (r: bool)
    ensures
        r == (a@ == b@),
{
    let n = a.unicode_len();
    if n != b.unicode_len() {
        return false;
    }
    let mut i: usize = 0;
    while i < n
        invariant
            0 <= i <= n,
            n == a@.len(),
            n == b@.len(),
            forall|j: int| 0 <= j < i ==> a@[j] == b@[j],
        decreases n - i,
    {
        if a.get_char(i) != b.get_char(i) {
            return false;
        }
        i += 1;
    }
    proof {
        assert(a@ =~= b@);
    }
    true
}

/// Joins a path prefix and a suffix with the separator; an empty prefix or
/// suffix yields the other side verbatim.
pub fn join_field_path(prefix: &str, suffix: &str) -> (r: String)
    ensures
        r@ == spec_join(prefix@, suffix@),
{
    if prefix.is_empty() {
        String::from_str(suffix)
    } else if suffix.is_empty() {
        String::from_str(prefix)
    } else {
        let mut s = String::from_str(prefix);
        s.append(".");
        s.append(suffix);
        proof {
            reveal_strlit(".");
            assert("."@ =~= seq!['.']);
            assert(s@ =~= prefix@ + seq!['.'] + suffix@);
        }
        s
    }
}

} // verus!
