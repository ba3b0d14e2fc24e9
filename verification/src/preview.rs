//! The text preview of a file: at most its first MiB, cut so that no
//! character is split.
use vstd::prelude::*;
use vstd::utf8::{
    is_continuation_byte, is_leading_byte_width_2, is_leading_byte_width_3,
    is_leading_byte_width_4, length_of_first_scalar, pop_first_scalar, valid_first_scalar,
    valid_utf8, valid_utf8_concat,
};

verus! {

/// How many bytes of a file the text preview shows at most (1 MiB).
pub const PREVIEW_LIMIT: usize = 1048576;

/// The number of bytes a leading byte announces for its character (1 for
/// ASCII and for bytes that lead no longer sequence).
pub open spec fn announced_width(x: u8) -> int {
    if is_leading_byte_width_2(x) {
        2
    } else if is_leading_byte_width_3(x) {
        3
    } else if is_leading_byte_width_4(x) {
        4
    } else {
        1
    }
}

/// Where the preview of the bytes `b` ends: before a last character that `b`
/// holds only in part (its leading byte among the last three bytes, with
/// fewer bytes after it than it announces), otherwise at the end of `b`.
pub open spec fn preview_cut(b: Seq<u8>) -> int {
    let n = b.len() as int;
    if n >= 1 && !is_continuation_byte(b[n - 1]) {
        if announced_width(b[n - 1]) > 1 {
            n - 1
        } else {
            n
        }
    } else if n >= 2 && !is_continuation_byte(b[n - 2]) {
        if announced_width(b[n - 2]) > 2 {
            n - 2
        } else {
            n
        }
    } else if n >= 3 && !is_continuation_byte(b[n - 3]) {
        if announced_width(b[n - 3]) > 3 {
            n - 3
        } else {
            n
        }
    } else {
        n
    }
}

fn width_of(x: u8) -> (w: usize)
    ensures
        w == announced_width(x),
{
    if 0xc0 <= x && x <= 0xdf {
        2
    } else if 0xe0 <= x && x <= 0xef {
        3
    } else if 0xf0 <= x && x <= 0xf7 {
        4
    } else {
        1
    }
}

/// How many of `bytes` the text preview keeps: all of them, but a last
/// character that is cut off.
pub fn preview_len(bytes: &[u8]) -> (k: usize)
    ensures
        k == preview_cut(bytes@),
{
    let n = bytes.len();
    let mut back: usize = 1;
    while back <= 3 && back <= n
        invariant
            1 <= back <= 4,
            n == bytes@.len(),
            forall|j: int| 1 <= j < back ==> j <= n && is_continuation_byte(#[trigger] bytes@[n - j]),
        decreases 4 - back,
    {
        let x = bytes[n - back];
        if !(0x80 <= x && x <= 0xbf) {
            if width_of(x) > back {
                return n - back;
            }
            return n;
        }
        back = back + 1;
    }
    proof {
        if n >= 1 {
            assert(is_continuation_byte(bytes@[n - 1]));
        }
        if n >= 2 {
            assert(is_continuation_byte(bytes@[n - 2]));
        }
        if n >= 3 {
            assert(is_continuation_byte(bytes@[n - 3]));
        }
    }
    n
}

/// The preview drops at most the three bytes of a character cut off at the
/// end, and nothing when the last byte is ASCII.
pub proof fn preview_drops_at_most_a_partial_character(b: Seq<u8>)
    ensures
        b.len() - 3 <= preview_cut(b) <= b.len(),
        b.len() > 0 && b.last() < 0x80 ==> preview_cut(b) == b.len(),
{
}

proof fn lemma_first_scalar_valid(w: Seq<u8>)
    requires
        valid_utf8(w),
        w.len() > 0,
    ensures
        valid_first_scalar(w),
        1 <= length_of_first_scalar(w) <= w.len(),
        length_of_first_scalar(w) == announced_width(w[0]),
        !is_continuation_byte(w[0]),
        forall|k: int| 1 <= k < length_of_first_scalar(w) ==> is_continuation_byte(#[trigger] w[k]),
        valid_utf8(w.subrange(0, length_of_first_scalar(w))),
        valid_utf8(pop_first_scalar(w)),
{
    let l = length_of_first_scalar(w);
    let f = w.subrange(0, l);
    assert forall|k: int| 0 <= k < l implies f[k] == w[k] by {}
    assert(valid_first_scalar(f));
    assert(length_of_first_scalar(f) == l);
    assert(pop_first_scalar(f) =~= Seq::<u8>::empty());
    reveal_with_fuel(valid_utf8, 2);
}

/// When the bytes are the start of a valid UTF-8 text, their preview is valid
/// UTF-8: the cut never leaves part of a character behind.
pub proof fn preview_of_utf8_start_is_utf8(w: Seq<u8>, n: int)
    requires
        valid_utf8(w),
        0 <= n <= w.len(),
    ensures
        valid_utf8(w.subrange(0, n).subrange(0, preview_cut(w.subrange(0, n)))),
    decreases w.len(),
{
    let b = w.subrange(0, n);
    if n == 0 {
        assert(b.subrange(0, preview_cut(b)) =~= Seq::<u8>::empty());
        reveal_with_fuel(valid_utf8, 1);
    } else {
        lemma_first_scalar_valid(w);
        let l = length_of_first_scalar(w);
        if n <= l {
            assert(forall|k: int| 0 <= k < n ==> b[k] == w[k]);
            if n < l {
                assert(preview_cut(b) == 0);
                assert(b.subrange(0, 0) =~= Seq::<u8>::empty());
                reveal_with_fuel(valid_utf8, 1);
            } else {
                assert(preview_cut(b) == n);
                assert(b.subrange(0, n) =~= w.subrange(0, l));
            }
        } else {
            let rest = pop_first_scalar(w);
            let m = n - l;
            preview_of_utf8_start_is_utf8(rest, m);
            let b2 = rest.subrange(0, m);
            assert forall|k: int| 0 <= k < m implies b2[k] == b[l + k] by {}
            assert(!is_continuation_byte(b2[0])) by {
                if rest.len() > 0 {
                    lemma_first_scalar_valid(rest);
                }
            }
            assert(preview_cut(b) == l + preview_cut(b2));
            let c = preview_cut(b2);
            assert(b.subrange(0, l + c) =~= w.subrange(0, l) + b2.subrange(0, c));
            valid_utf8_concat(w.subrange(0, l), b2.subrange(0, c));
        }
    }
}

} // verus!
