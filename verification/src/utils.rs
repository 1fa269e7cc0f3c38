//! Display-width helpers for the presentation layer: an ASCII character
//! occupies one cell, any other character two. `round_off` truncates a
//! string to a cell budget without ever cutting a wide character in half.

use vstd::prelude::*;
use vstd::string::StrSliceExecFns;

verus! {

/// The display width of one character: one cell if ASCII, else two.
pub open spec fn char_width(c: char) -> int {
    if (c as int) < 128 {
        1
    } else {
        2
    }
}

/// The display widths of the subject's characters, in order.
pub fn widths_as_ascii(subject: &str) -> (r: Vec<u32>)
    ensures
        r@.len() == subject@.len(),
        forall|i: int| 0 <= i < r@.len() ==> r@[i] == char_width(subject@[i]),
{
    let n = subject.unicode_len();
    let mut r: Vec<u32> = Vec::new();
    let mut i: usize = 0;
    while i < n
        invariant
            i <= n,
            n == subject@.len(),
            r@.len() == i,
            forall|j: int| 0 <= j < i ==> r@[j] == char_width(subject@[j]),
        decreases n - i,
    {
        let c = subject.get_char(i);
        if (c as u32) < 128 {
            r.push(1);
        } else {
            r.push(2);
        }
        i = i + 1;
    }
    r
}

/// The subject truncated to `len` display cells: characters are taken while
/// they fit whole; a two-cell character facing a single remaining cell
/// becomes one space and ends the result.
pub open spec fn spec_round_off(s: Seq<char>, len: int) -> Seq<char>
    decreases s.len(),
{
    if s.len() == 0 || len <= 0 {
        Seq::empty()
    } else if char_width(s[0]) > len {
        seq![' ']
    } else {
        seq![s[0]] + spec_round_off(s.skip(1), len - char_width(s[0]))
    }
}

/// Truncates the subject to a display width of `len` cells.
pub fn round_off(subject: &str, len: u32) -> (r: String)
    ensures
        r@ == spec_round_off(subject@, len as int),
{
    let n = subject.unicode_len();
    let mut i: usize = 0;
    let mut used: u32 = 0;
    let mut pad = false;
    proof {
        assert(subject@.skip(0) =~= subject@);
    }
    loop
        invariant_except_break
            n == subject@.len(),
            i <= n,
            used <= len,
            !pad,
            spec_round_off(subject@, len as int) == subject@.subrange(0, i as int)
                + spec_round_off(subject@.skip(i as int), len - used),
        ensures
            spec_round_off(subject@, len as int) == subject@.subrange(0, i as int) + if pad {
                seq![' ']
            } else {
                Seq::<char>::empty()
            },
            i <= n,
        decreases n - i,
    {
        if i >= n {
            proof {
                assert(subject@.skip(i as int) =~= Seq::<char>::empty());
                assert(spec_round_off(Seq::<char>::empty(), len - used) =~= Seq::<char>::empty());
                assert(subject@.subrange(0, i as int) + Seq::<char>::empty() =~= subject@.subrange(
                    0,
                    i as int,
                ));
            }
            break ;
        }
        let c = subject.get_char(i);
        let w: u32 = if (c as u32) < 128 {
            1
        } else {
            2
        };
        proof {
            assert(subject@.skip(i as int)[0] == subject@[i as int]);
            assert(subject@.skip(i as int).skip(1) =~= subject@.skip(i as int + 1));
            assert(subject@.subrange(0, i as int) + seq![subject@[i as int]] =~= subject@.subrange(
                0,
                i as int + 1,
            ));
        }
        if len - used == 0 {
            proof {
                assert(spec_round_off(subject@.skip(i as int), 0) =~= Seq::<char>::empty());
                assert(subject@.subrange(0, i as int) + Seq::<char>::empty() =~= subject@.subrange(
                    0,
                    i as int,
                ));
            }
            break ;
        } else if len - used == 1 && w == 2 {
            pad = true;
            break ;
        } else {
            used = used + w;
            i = i + 1;
        }
    }
    let taken = subject.substring_char(0, i);
    let mut out = taken.to_owned();
    if pad {
        out.append(" ");
        proof {
            reveal_strlit(" ");
            assert(" "@ =~= seq![' ']);
        }
    }
    proof {
        assert(out@ == spec_round_off(subject@, len as int));
    }
    out
}

} // verus!
