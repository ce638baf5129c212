//! Relative paths as `/`-separated byte strings, and the canonical
//! two-component catalogue paths `directory/name`.
//!
//! Components follow the documented Unix path rules: repeated separators
//! and a trailing separator are ignored, and `.` segments after the first
//! are normalized away.

use crate::bytes::bytes_eq;
use vstd::prelude::*;

verus! {

/// The segments of `s` between `/` separators, empty ones included.
pub open spec fn split_slash(s: Seq<u8>) -> Seq<Seq<u8>>
    decreases s.len(),
{
    if s.len() == 0 {
        seq![Seq::<u8>::empty()]
    } else {
        let p = split_slash(s.drop_last());
        if s.last() == 47 {
            p.push(Seq::<u8>::empty())
        } else {
            p.update(p.len() - 1, p.last().push(s.last()))
        }
    }
}

/// There is always at least one segment.
pub proof fn lemma_split_nonempty(s: Seq<u8>)
    ensures
        split_slash(s).len() >= 1,
    decreases s.len(),
{
    if s.len() > 0 {
        lemma_split_nonempty(s.drop_last());
    }
}

/// A segment that is a path component after the first: not empty and not `.`.
pub open spec fn is_meaningful(seg: Seq<u8>) -> bool {
    seg.len() > 0 && seg != seq![46u8]
}

/// The components after the first segment.
pub open spec fn later_components(s: Seq<u8>) -> Seq<Seq<u8>> {
    split_slash(s).drop_first().filter(|seg: Seq<u8>| is_meaningful(seg))
}

/// `s` ends with `suffix`.
pub open spec fn ends_with(s: Seq<u8>, suffix: Seq<u8>) -> bool {
    suffix.len() <= s.len() && s.subrange(s.len() - suffix.len(), s.len() as int) == suffix
}

/// A canonical catalogue path: exactly the components `directory` and one
/// name other than `..`, ending in `suffix`.
pub open spec fn is_canonical_relative(value: Seq<u8>, directory: Seq<u8>, suffix: Seq<u8>) -> bool {
    &&& split_slash(value)[0] == directory
    &&& later_components(value).len() == 1
    &&& later_components(value)[0] != seq![46u8, 46u8]
    &&& ends_with(value, suffix)
}

/// The segments of a byte string.
pub fn split_segments(value: &[u8]) -> (segments: Vec<Vec<u8>>)
    ensures
        segments@.map_values(|v: Vec<u8>| v@) == split_slash(value@),
{
    let mut segments: Vec<Vec<u8>> = Vec::new();
    segments.push(Vec::new());
    let mut i: usize = 0;
    proof {
        assert(value@.take(0) =~= Seq::<u8>::empty());
        assert(segments@.map_values(|v: Vec<u8>| v@) =~= split_slash(value@.take(0)));
    }
    while i < value.len()
        invariant
            i <= value@.len(),
            segments@.len() >= 1,
            segments@.map_values(|v: Vec<u8>| v@) == split_slash(value@.take(i as int)),
        decreases value@.len() - i,
    {
        let b = value[i];
        let ghost before = segments@.map_values(|v: Vec<u8>| v@);
        proof {
            assert(value@.take(i + 1).drop_last() =~= value@.take(i as int));
            assert(value@.take(i + 1).last() == b);
        }
        if b == 47 {
            segments.push(Vec::new());
            proof {
                assert(segments@.map_values(|v: Vec<u8>| v@) =~= before.push(Seq::<u8>::empty()));
            }
        } else {
            let last = segments.len() - 1;
            let mut current = segments.remove(last);
            current.push(b);
            segments.push(current);
            proof {
                assert(segments@.map_values(|v: Vec<u8>| v@) =~= before.update(before.len() - 1, before.last().push(b)));
            }
        }
        i = i + 1;
    }
    proof {
        assert(value@.take(i as int) =~= value@);
    }
    segments
}

/// Whether `value` ends with `suffix`.
pub fn bytes_end_with(value: &[u8], suffix: &[u8]) -> (r: bool)
    ensures
        r == ends_with(value@, suffix@),
{
    if suffix.len() > value.len() {
        return false;
    }
    let start = value.len() - suffix.len();
    let mut i: usize = 0;
    while i < suffix.len()
        invariant
            start + suffix@.len() == value@.len(),
            value@.len() == value.len(),
            suffix@.len() == suffix.len(),
            i <= suffix@.len(),
            forall|j: int| 0 <= j < i ==> value@[start + j] == suffix@[j],
        decreases suffix@.len() - i,
    {
        if value[start + i] != suffix[i] {
            proof {
                assert(value@.subrange(start as int, value@.len() as int)[i as int] != suffix@[i as int]);
            }
            return false;
        }
        i = i + 1;
    }
    assert(value@.subrange(start as int, value@.len() as int) =~= suffix@);
    true
}

/// Whether `value` is the canonical path `directory/name` ending in `suffix`.
pub fn is_canonical_relative_path(value: &[u8], directory: &[u8], suffix: &[u8]) -> (r: bool)
    ensures
        r == is_canonical_relative(value@, directory@, suffix@),
{
    let segments = split_segments(value);
    let ghost segs = split_slash(value@);
    let ghost rest = segs.drop_first();
    let ghost pred = |seg: Seq<u8>| is_meaningful(seg);
    let mut count: usize = 0;
    let mut name: Vec<u8> = Vec::new();
    let mut j: usize = 1;
    proof {
        lemma_split_nonempty(value@);
        reveal(Seq::filter);
        assert(rest.take(0) =~= Seq::<Seq<u8>>::empty());
    }
    while j < segments.len()
        invariant
            segs == split_slash(value@),
            rest == segs.drop_first(),
            segments@.map_values(|v: Vec<u8>| v@) == segs,
            1 <= j <= segments@.len(),
            count == rest.take(j - 1).filter(pred).len(),
            count <= j - 1,
            count >= 1 ==> name@ == rest.take(j - 1).filter(pred).last(),
            pred == (|seg: Seq<u8>| is_meaningful(seg)),
        decreases segments@.len() - j,
    {
        let seg = &segments[j];
        proof {
            assert(seg@ == segs[j as int]);
            assert(rest.take(j as int).drop_last() =~= rest.take(j - 1));
            assert(rest.take(j as int).last() == segs[j as int]);
        }
        let meaningful = seg.len() > 0 && !(seg.len() == 1 && seg[0] == 46);
        proof {
            if seg@ == seq![46u8] {
                assert(seg@.len() == 1 && seg@[0] == 46);
            }
            if seg@.len() == 1 && seg@[0] == 46 {
                assert(seg@ =~= seq![46u8]);
            }
            assert(meaningful == is_meaningful(seg@));
        }
        proof {
            let t = rest.take(j as int);
            reveal(Seq::filter);
            assert(t.len() > 0);
            assert(t.filter(pred) == if pred(t.last()) { t.drop_last().filter(pred).push(t.last()) } else { t.drop_last().filter(pred) });
            assert(pred(t.last()) == is_meaningful(seg@));
        }
        if meaningful {
            count = count + 1;
            name = seg.clone();
            proof {
                assert(name@ =~= seg@);
            }
        }
        j = j + 1;
    }
    proof {
        lemma_split_nonempty(value@);
        assert(rest.take(j - 1) =~= rest);
    }
    if count != 1 {
        return false;
    }
    let parent_name = name.len() == 2 && name[0] == 46 && name[1] == 46;
    proof {
        if name@ == seq![46u8, 46u8] {
            assert(name@.len() == 2 && name@[0] == 46 && name@[1] == 46);
        }
        if name@.len() == 2 && name@[0] == 46 && name@[1] == 46 {
            assert(name@ =~= seq![46u8, 46u8]);
        }
        assert(later_components(value@) == rest.filter(pred));
        assert(later_components(value@)[0] == rest.filter(pred).last());
    }
    if parent_name {
        return false;
    }
    bytes_eq(segments[0].as_slice(), directory) && bytes_end_with(value, suffix)
}

} // verus!
