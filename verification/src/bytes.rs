//! Helpers over byte strings: equality, searching for a delimiter and
//! extracting pieces. Names, version specifiers and path fragments are all
//! held as `Vec<u8>` / `&[u8]` and specified by their `Seq<u8>` views.

use vstd::prelude::*;

verus! {

/// The byte `/`, the component separator of unix-style paths.
pub const SLASH: u8 = 47;

/// The byte `.`, of the path steps `.` and `..`.
pub const DOT: u8 = 46;

/// The byte `:`, separating a specifier's protocol from its remainder.
pub const COLON: u8 = 58;

/// The byte `@`, separating an explicit alias from its range.
pub const AT: u8 = 64;

/// The byte `*`, the range that matches anything.
pub const STAR: u8 = 42;

/// The byte `^`, the caret range marker.
pub const CARET: u8 = 94;

/// The byte `~`, the tilde range marker.
pub const TILDE: u8 = 126;

/// Byte-string equality, specified against the views.
pub fn bytes_eq(a: &[u8], b: &[u8]) -> (r: bool)
    ensures
        r == (a@ == b@),
{
    if a.len() != b.len() {
        proof {
            assert(a@ != b@);
        }
        return false;
    }
    let mut i: usize = 0;
    while i < a.len()
        invariant
            0 <= i <= a.len(),
            a@.len() == b@.len(),
            forall|k: int| 0 <= k < i ==> a@[k] == b@[k],
        decreases a.len() - i,
    {
        if a[i] != b[i] {
            return false;
        }
        i += 1;
    }
    proof {
        assert(a@ =~= b@);
    }
    true
}

/// Index of the first occurrence of `needle` in `s`, if any.
pub open spec fn spec_find(s: Seq<u8>, needle: u8) -> Option<int>
    decreases s.len(),
{
    if s.len() == 0 {
        None
    } else if s[0] == needle {
        Some(0int)
    } else {
        match spec_find(s.drop_first(), needle) {
            None => None,
            Some(j) => Some(j + 1),
        }
    }
}

/// `spec_find` returns the least index holding `needle`, or `None` when
/// `needle` does not occur.
pub proof fn lemma_spec_find(s: Seq<u8>, needle: u8)
    ensures
        match spec_find(s, needle) {
            None => forall|k: int| 0 <= k < s.len() ==> s[k] != needle,
            Some(j) => 0 <= j < s.len() && s[j] == needle && forall|k: int|
                0 <= k < j ==> s[k] != needle,
        },
    decreases s.len(),
{
    if s.len() > 0 && s[0] != needle {
        lemma_spec_find(s.drop_first(), needle);
        match spec_find(s.drop_first(), needle) {
            None => {
                assert forall|k: int| 0 <= k < s.len() implies s[k] != needle by {
                    if k > 0 {
                        assert(s.drop_first()[k - 1] == s[k]);
                    }
                }
            },
            Some(j) => {
                assert(s.drop_first()[j] == s[j + 1]);
                assert forall|k: int| 0 <= k < j + 1 implies s[k] != needle by {
                    if k > 0 {
                        assert(s.drop_first()[k - 1] == s[k]);
                    }
                }
            },
        }
    }
}

/// First occurrence of `needle`, as executable code.
pub fn find_byte(s: &[u8], needle: u8) -> (r: Option<usize>)
    ensures
        match r {
            None => spec_find(s@, needle) is None && forall|k: int|
                0 <= k < s@.len() ==> s@[k] != needle,
            Some(i) => spec_find(s@, needle) == Some(i as int) && i < s@.len() && s@[i as int]
                == needle,
        },
{
    proof {
        lemma_spec_find(s@, needle);
    }
    let mut i: usize = 0;
    while i < s.len()
        invariant
            0 <= i <= s.len(),
            forall|k: int| 0 <= k < i ==> s@[k] != needle,
            match spec_find(s@, needle) {
                None => forall|k: int| 0 <= k < s@.len() ==> s@[k] != needle,
                Some(j) => 0 <= j < s@.len() && s@[j] == needle && forall|k: int|
                    0 <= k < j ==> s@[k] != needle,
            },
        decreases s.len() - i,
    {
        if s[i] == needle {
            return Some(i);
        }
        i += 1;
    }
    None
}

/// Index of the last occurrence of `needle` in `s`, if any.
pub open spec fn spec_rfind(s: Seq<u8>, needle: u8) -> Option<int>
    decreases s.len(),
{
    if s.len() == 0 {
        None
    } else if s[s.len() - 1] == needle {
        Some(s.len() - 1)
    } else {
        spec_rfind(s.drop_last(), needle)
    }
}

/// `spec_rfind` returns the greatest index holding `needle`, or `None` when
/// `needle` does not occur.
pub proof fn lemma_spec_rfind(s: Seq<u8>, needle: u8)
    ensures
        match spec_rfind(s, needle) {
            None => forall|k: int| 0 <= k < s.len() ==> s[k] != needle,
            Some(j) => 0 <= j < s.len() && s[j] == needle && forall|k: int|
                j < k < s.len() ==> s[k] != needle,
        },
    decreases s.len(),
{
    if s.len() > 0 && s[s.len() - 1] != needle {
        lemma_spec_rfind(s.drop_last(), needle);
        assert forall|k: int| 0 <= k < s.len() - 1 implies s.drop_last()[k] == s[k] by {}
    }
}

/// Last occurrence of `needle`, as executable code.
pub fn rfind_byte(s: &[u8], needle: u8) -> (r: Option<usize>)
    ensures
        match r {
            None => spec_rfind(s@, needle) is None && forall|k: int|
                0 <= k < s@.len() ==> s@[k] != needle,
            Some(i) => spec_rfind(s@, needle) == Some(i as int) && i < s@.len() && s@[i as int]
                == needle,
        },
{
    proof {
        lemma_spec_rfind(s@, needle);
    }
    let mut i: usize = s.len();
    while i > 0
        invariant
            0 <= i <= s.len(),
            forall|k: int| i <= k < s@.len() ==> s@[k] != needle,
            match spec_rfind(s@, needle) {
                None => forall|k: int| 0 <= k < s@.len() ==> s@[k] != needle,
                Some(j) => 0 <= j < s@.len() && s@[j] == needle && forall|k: int|
                    j < k < s@.len() ==> s@[k] != needle,
            },
        decreases i,
    {
        i -= 1;
        if s[i] == needle {
            return Some(i);
        }
    }
    None
}

/// Copy of `s[from..to]` as an owned byte string.
pub fn sub_bytes(s: &[u8], from: usize, to: usize) -> (r: Vec<u8>)
    requires
        0 <= from <= to <= s@.len(),
    ensures
        r@ == s@.subrange(from as int, to as int),
{
    let mut out: Vec<u8> = Vec::new();
    let mut i: usize = from;
    while i < to
        invariant
            from <= i <= to <= s@.len(),
            out@ == s@.subrange(from as int, i as int),
        decreases to - i,
    {
        out.push(s[i]);
        proof {
            assert(out@ =~= s@.subrange(from as int, i + 1 as int));
        }
        i += 1;
    }
    out
}

} // verus!
