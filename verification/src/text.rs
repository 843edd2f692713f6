//! Byte-level text utilities for the buffers that cross the native boundary:
//! locating NUL terminators and validating UTF-8 content.

use vstd::prelude::*;

verus! {

/// True when `s` holds the byte `b` somewhere.
pub open spec fn has_byte(s: Seq<u8>, b: u8) -> bool {
    exists|i: int| 0 <= i < s.len() && s[i] == b
}

/// The position of the first occurrence of `b` in `s`, if any.
pub open spec fn first_index(s: Seq<u8>, b: u8) -> Option<int>
    decreases s.len(),
{
    if s.len() == 0 {
        None
    } else if s[0] == b {
        Some(0)
    } else {
        match first_index(s.drop_first(), b) {
            Some(i) => Some(i + 1),
            None => None,
        }
    }
}

/// `first_index` returns the first occurrence: the hit itself, with nothing
/// equal to `b` before it, or nothing at all.
pub proof fn lemma_first_index(s: Seq<u8>, b: u8)
    ensures
        match first_index(s, b) {
            Some(i) => 0 <= i < s.len() && s[i] == b && (forall|j: int| 0 <= j < i ==> s[j] != b),
            None => forall|j: int| 0 <= j < s.len() ==> s[j] != b,
        },
    decreases s.len(),
{
    if s.len() > 0 && s[0] != b {
        let rest = s.drop_first();
        lemma_first_index(rest, b);
        match first_index(rest, b) {
            Some(i) => {
                assert(first_index(s, b) == Some(i + 1));
                assert(s[i + 1] == rest[i]);
                assert forall|j: int| 0 <= j < i + 1 implies s[j] != b by {
                    if j >= 1 {
                        assert(rest[j - 1] == s[j]);
                        assert(rest[j - 1] != b);
                    }
                }
            },
            None => {
                assert forall|j: int| 0 <= j < s.len() implies s[j] != b by {
                    if j >= 1 {
                        assert(rest[j - 1] == s[j]);
                        assert(rest[j - 1] != b);
                    }
                }
            },
        }
    }
}

/// Finds the first occurrence of `b` in `s[from..to]`.
pub fn find_range(s: &[u8], from: usize, to: usize, b: u8) -> (r: Option<usize>)
    requires
        from <= to <= s@.len(),
    ensures
        match r {
            Some(i) => from <= i < to && s@[i as int] == b && (forall|j: int|
                from <= j < i ==> s@[j] != b),
            None => forall|j: int| from <= j < to ==> s@[j] != b,
        },
{
    let mut i: usize = from;
    while i < to
        invariant
            from <= i <= to <= s@.len(),
            forall|j: int| from <= j < i ==> s@[j] != b,
        decreases to - i,
    {
        if s[i] == b {
            return Some(i);
        }
        i += 1;
    }
    None
}

/// True when `b` continues a multi-byte UTF-8 character.
pub open spec fn is_cont(b: u8) -> bool {
    0x80 <= b && b <= 0xBF
}

/// True when `b0`, `b1` can open a three-byte UTF-8 character.
pub open spec fn utf8_open3(b0: u8, b1: u8) -> bool {
    ||| (b0 == 0xE0 && 0xA0 <= b1 && b1 <= 0xBF)
    ||| (0xE1 <= b0 && b0 <= 0xEC && is_cont(b1))
    ||| (b0 == 0xED && 0x80 <= b1 && b1 <= 0x9F)
    ||| (0xEE <= b0 && b0 <= 0xEF && is_cont(b1))
}

/// True when `b0`, `b1` can open a four-byte UTF-8 character.
pub open spec fn utf8_open4(b0: u8, b1: u8) -> bool {
    ||| (b0 == 0xF0 && 0x90 <= b1 && b1 <= 0xBF)
    ||| (0xF1 <= b0 && b0 <= 0xF3 && is_cont(b1))
    ||| (b0 == 0xF4 && 0x80 <= b1 && b1 <= 0x8F)
}

/// The length of the UTF-8 character at the front of `s`, or 0 when `s` does
/// not start with a well-formed character.
pub open spec fn utf8_step(s: Seq<u8>) -> int {
    if s.len() >= 1 && s[0] < 0x80 {
        1
    } else if s.len() >= 2 && 0xC2 <= s[0] && s[0] <= 0xDF && is_cont(s[1]) {
        2
    } else if s.len() >= 3 && utf8_open3(s[0], s[1]) && is_cont(s[2]) {
        3
    } else if s.len() >= 4 && utf8_open4(s[0], s[1]) && is_cont(s[2]) && is_cont(s[3]) {
        4
    } else {
        0
    }
}

/// True when `s` is well-formed UTF-8.
pub open spec fn is_utf8(s: Seq<u8>) -> bool
    decreases s.len(),
{
    if s.len() == 0 {
        true
    } else {
        utf8_step(s) > 0 && is_utf8(s.skip(utf8_step(s)))
    }
}

/// Checks whether `s[..end]` is well-formed UTF-8.
pub fn utf8_prefix_check(s: &[u8], end: usize) -> (r: bool)
    requires
        end <= s@.len(),
    ensures
        r == is_utf8(s@.take(end as int)),
{
    let ghost whole = s@.take(end as int);
    let mut i: usize = 0;
    while i < end
        invariant
            0 <= i <= end <= s@.len(),
            whole == s@.take(end as int),
            is_utf8(whole) == is_utf8(s@.subrange(i as int, end as int)),
        decreases end - i,
    {
        let ghost rest = s@.subrange(i as int, end as int);
        let b0 = s[i];
        let step: usize = if b0 < 0x80 {
            1
        } else if 0xC2 <= b0 && b0 <= 0xDF {
            if end - i >= 2 && 0x80 <= s[i + 1] && s[i + 1] <= 0xBF {
                2
            } else {
                0
            }
        } else if 0xE0 <= b0 && b0 <= 0xEF {
            if end - i >= 3 && ({
                let b1 = s[i + 1];
                (b0 == 0xE0 && 0xA0 <= b1 && b1 <= 0xBF) || (0xE1 <= b0 && b0 <= 0xEC && 0x80 <= b1
                    && b1 <= 0xBF) || (b0 == 0xED && 0x80 <= b1 && b1 <= 0x9F) || (0xEE <= b0
                    && 0x80 <= b1 && b1 <= 0xBF)
            }) && 0x80 <= s[i + 2] && s[i + 2] <= 0xBF {
                3
            } else {
                0
            }
        } else if 0xF0 <= b0 && b0 <= 0xF4 {
            if end - i >= 4 && ({
                let b1 = s[i + 1];
                (b0 == 0xF0 && 0x90 <= b1 && b1 <= 0xBF) || (0xF1 <= b0 && b0 <= 0xF3 && 0x80 <= b1
                    && b1 <= 0xBF) || (b0 == 0xF4 && 0x80 <= b1 && b1 <= 0x8F)
            }) && 0x80 <= s[i + 2] && s[i + 2] <= 0xBF && 0x80 <= s[i + 3] && s[i + 3] <= 0xBF {
                4
            } else {
                0
            }
        } else {
            0
        };
        proof {
            assert(rest.len() == end - i);
            assert(forall|j: int| 0 <= j < rest.len() ==> rest[j] == s@[i + j]);
            assert(utf8_step(rest) == step as int);
        }
        if step == 0 {
            proof {
                assert(!is_utf8(rest));
            }
            return false;
        }
        proof {
            assert(rest.skip(step as int) =~= s@.subrange(i + step as int, end as int));
            assert(is_utf8(rest) == is_utf8(s@.subrange(i + step as int, end as int)));
        }
        i += step;
    }
    proof {
        assert(s@.subrange(i as int, end as int) =~= Seq::<u8>::empty());
        assert(is_utf8(s@.subrange(i as int, end as int)));
    }
    true
}

/// Copies `s[from..to]` into a fresh vector.
pub fn copy_range(s: &[u8], from: usize, to: usize) -> (v: Vec<u8>)
    requires
        from <= to <= s@.len(),
    ensures
        v@ == s@.subrange(from as int, to as int),
{
    let mut v: Vec<u8> = Vec::new();
    let mut i: usize = from;
    while i < to
        invariant
            from <= i <= to <= s@.len(),
            v@ == s@.subrange(from as int, i as int),
        decreases to - i,
    {
        v.push(s[i]);
        i += 1;
        proof {
            assert(v@ =~= s@.subrange(from as int, i as int));
        }
    }
    v
}

/// True when the text `t` holds an interior NUL and so cannot cross the
/// native boundary as NUL-terminated text.
pub fn contains_nul(t: &[u8]) -> (r: bool)
    ensures
        r == has_byte(t@, 0u8),
{
    let found = find_range(t, 0, t.len(), 0u8);
    match found {
        Some(_) => true,
        None => false,
    }
}

} // verus!
