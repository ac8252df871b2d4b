//! Wrapping text into pieces of bounded width.
use vstd::prelude::*;

verus! {

/// A byte that continues a UTF-8 encoded character.
pub open spec fn is_continuation(b: u8) -> bool {
    128 <= b < 192
}

/// End of the piece that starts at `i` with room for `left` more characters: it ends
/// after a line feed, before a character that would not fit, or at the end of `s`.
pub open spec fn piece_end(s: Seq<u8>, i: int, left: nat) -> int
    decreases s.len() - i,
{
    if i < 0 || i >= s.len() {
        i
    } else if left == 0 && !is_continuation(s[i]) {
        i
    } else if s[i] == 10 && left > 0 {
        i + 1
    } else if is_continuation(s[i]) {
        piece_end(s, i + 1, left)
    } else {
        piece_end(s, i + 1, (left - 1) as nat)
    }
}

/// The pieces of `s` from `pos` on, each of at most `width` characters.
pub open spec fn pieces(s: Seq<u8>, pos: int, width: nat) -> Seq<Seq<u8>>
    decreases s.len() - pos,
{
    if pos < 0 || pos >= s.len() {
        Seq::empty()
    } else {
        let e = piece_end(s, pos, width);
        if pos < e <= s.len() {
            seq![s.subrange(pos, e)] + pieces(s, e, width)
        } else {
            Seq::empty()
        }
    }
}

proof fn lemma_piece_end(s: Seq<u8>, i: int, left: nat)
    requires
        0 <= i <= s.len(),
    ensures
        i <= piece_end(s, i, left) <= s.len(),
        i < s.len() && left > 0 ==> i < piece_end(s, i, left),
    decreases s.len() - i,
{
    if i < s.len() {
        if left == 0 && !is_continuation(s[i]) {
        } else if s[i] == 10 && left > 0 {
        } else if is_continuation(s[i]) {
            lemma_piece_end(s, i + 1, left);
        } else {
            lemma_piece_end(s, i + 1, (left - 1) as nat);
        }
    }
}

/// Splits `string` into pieces of at most `sub_len` characters, a piece ending early
/// after a line feed (see `pieces`).
pub fn sub_strings(string: &[u8], sub_len: usize) -> (r: Vec<Vec<u8>>)
    requires
        sub_len > 0,
    ensures
        r@.map_values(|v: Vec<u8>| v@) == pieces(string@, 0, sub_len as nat),
{
    let mut subs: Vec<Vec<u8>> = Vec::new();
    let mut pos: usize = 0;
    let ghost s = string@;
    while pos < string.len()
        invariant
            s == string@,
            pos <= s.len(),
            sub_len > 0,
            pieces(s, 0, sub_len as nat) == subs@.map_values(|v: Vec<u8>| v@) + pieces(
                s,
                pos as int,
                sub_len as nat,
            ),
        decreases s.len() - pos,
    {
        let mut end = pos;
        let mut left = sub_len;
        proof {
            lemma_piece_end(s, pos as int, sub_len as nat);
        }
        let mut stop = false;
        while end < string.len() && !stop
            invariant
                s == string@,
                pos <= end <= s.len(),
                left <= sub_len,
                stop ==> end == piece_end(s, pos as int, sub_len as nat),
                !stop ==> piece_end(s, pos as int, sub_len as nat) == piece_end(
                    s,
                    end as int,
                    left as nat,
                ),
            decreases s.len() - end, if stop { 0int } else { 1int },
        {
            let b = string[end];
            let cont = 128 <= b && b < 192;
            if left == 0 && !cont {
                stop = true;
            } else if b == 10 && left > 0 {
                end = end + 1;
                stop = true;
            } else {
                if !cont {
                    left = left - 1;
                }
                end = end + 1;
            }
        }
        let ghost e = piece_end(s, pos as int, sub_len as nat);
        assert(end == e);
        let piece = crate::bytes::copy_range(string, pos, end);
        proof {
            let old_subs = subs@.map_values(|v: Vec<u8>| v@);
            assert(subs@.push(piece).map_values(|v: Vec<u8>| v@) =~= old_subs.push(piece@));
            assert(old_subs + (seq![piece@] + pieces(s, e, sub_len as nat)) =~= old_subs.push(
                piece@,
            ) + pieces(s, e, sub_len as nat));
        }
        subs.push(piece);
        pos = end;
    }
    proof {
        assert(subs@.map_values(|v: Vec<u8>| v@) + Seq::<Seq<u8>>::empty() =~= subs@.map_values(
            |v: Vec<u8>| v@,
        ));
    }
    subs
}

} // verus!
