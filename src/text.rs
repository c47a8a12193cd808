use vstd::prelude::*;
use vstd::string::StringSliceAdditionalSpecFns;
use vstd::utf8::*;

verus! {

/// True when every byte of `b` before position `i` is an ASCII byte.
pub open spec fn ascii_before(b: Seq<u8>, i: int) -> bool {
    forall|j: int| 0 <= j < i ==> #[trigger] b[j] < 0x80
}

/// A position that only ASCII bytes precede falls on a character boundary.
pub proof fn lemma_ascii_prefix_boundary(b: Seq<u8>, i: int)
    requires
        valid_utf8(b),
        0 <= i <= b.len(),
        ascii_before(b, i),
    ensures
        is_char_boundary(b, i),
    decreases i,
{
    if i > 0 {
        assert(b[0] < 0x80);
        assert(length_of_first_scalar(b) == 1);
        let rest = pop_first_scalar(b);
        assert(ascii_before(rest, i - 1)) by {
            assert forall|j: int| 0 <= j < i - 1 implies #[trigger] rest[j] < 0x80 by {
                assert(rest[j] == b[j + 1]);
            }
        }
        lemma_ascii_prefix_boundary(rest, i - 1);
    }
}

/// The part of `s` between byte positions `start` and `end`, where only ASCII
/// bytes come before `end`.
pub fn ascii_slice<'a>(s: &'a str, start: usize, end: usize) -> (r: &'a str)
    requires
        start <= end <= s.spec_bytes().len(),
        ascii_before(s.spec_bytes(), end as int),
    ensures
        r.spec_bytes() == s.spec_bytes().subrange(start as int, end as int),
{
    let ghost b = s.spec_bytes();
    proof {
        broadcast use encode_utf8_valid_utf8;
        lemma_ascii_prefix_boundary(b, start as int);
    }
    let (_, tail) = s.split_at(start);
    let ghost t = tail.spec_bytes();
    proof {
        broadcast use encode_utf8_valid_utf8;
        assert(ascii_before(t, (end - start) as int)) by {
            assert forall|j: int| 0 <= j < end - start implies #[trigger] t[j] < 0x80 by {
                assert(t[j] == b[j + start]);
            }
        }
        lemma_ascii_prefix_boundary(t, (end - start) as int);
    }
    let (mid, _) = tail.split_at(end - start);
    proof {
        assert(mid.spec_bytes() =~= b.subrange(start as int, end as int));
    }
    mid
}

/// The part of `s` from byte position `start` on, where only ASCII bytes come
/// before `start`.
pub fn ascii_rest<'a>(s: &'a str, start: usize) -> (r: &'a str)
    requires
        start <= s.spec_bytes().len(),
        ascii_before(s.spec_bytes(), start as int),
    ensures
        r.spec_bytes() == s.spec_bytes().subrange(start as int, s.spec_bytes().len() as int),
{
    proof {
        broadcast use encode_utf8_valid_utf8;
        lemma_ascii_prefix_boundary(s.spec_bytes(), start as int);
    }
    let (_, tail) = s.split_at(start);
    tail
}

} // verus!
