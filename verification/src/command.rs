//! The interactive client's command language: `join GROUP` and
//! `post GROUP MESSAGE`, with surrounding whitespace ignored.
//!
//! Command lines arrive as the UTF-8 bytes the user typed; trimming removes
//! the UTF-8 encodings of the Unicode whitespace characters from both ends,
//! and splitting is on single ASCII spaces.

use crate::protocol::{ClientMsg, FromClient};
use vstd::prelude::*;

verus! {

/// A one-byte (ASCII) whitespace character.
pub open spec fn is_space(b: u8) -> bool {
    b == 32 || b == 9 || b == 10 || b == 11 || b == 12 || b == 13
}

/// The length of the UTF-8-encoded Unicode whitespace character starting at
/// position `i`, or 0 when none starts there. The characters are exactly
/// those with the White_Space property: the six ASCII ones, next line and
/// no-break space (two bytes), and the ogham, typographic, line, paragraph,
/// narrow no-break, mathematical and ideographic spaces (three bytes).
pub open spec fn space_run_at(s: Seq<u8>, i: int) -> int {
    if i < 0 {
        0
    } else if i < s.len() && is_space(s[i]) {
        1
    } else if i + 1 < s.len() && s[i] == 0xc2 && (s[i + 1] == 0x85 || s[i + 1] == 0xa0) {
        2
    } else if i + 2 < s.len() && s[i] == 0xe1 && s[i + 1] == 0x9a && s[i + 2] == 0x80 {
        3
    } else if i + 2 < s.len() && s[i] == 0xe2 && s[i + 1] == 0x80 && (0x80 <= s[i + 2]
        <= 0x8a || s[i + 2] == 0xa8 || s[i + 2] == 0xa9 || s[i + 2] == 0xaf) {
        3
    } else if i + 2 < s.len() && s[i] == 0xe2 && s[i + 1] == 0x81 && s[i + 2] == 0x9f {
        3
    } else if i + 2 < s.len() && s[i] == 0xe3 && s[i + 1] == 0x80 && s[i + 2] == 0x80 {
        3
    } else {
        0
    }
}

/// The length of the UTF-8-encoded Unicode whitespace character ending just
/// before position `i`, or 0 when none ends there.
pub open spec fn space_run_before(s: Seq<u8>, i: int) -> int {
    if i > s.len() {
        0
    } else if i >= 1 && is_space(s[i - 1]) {
        1
    } else if i >= 2 && s[i - 2] == 0xc2 && (s[i - 1] == 0x85 || s[i - 1] == 0xa0) {
        2
    } else if i >= 3 && s[i - 3] == 0xe1 && s[i - 2] == 0x9a && s[i - 1] == 0x80 {
        3
    } else if i >= 3 && s[i - 3] == 0xe2 && s[i - 2] == 0x80 && (0x80 <= s[i - 1] <= 0x8a || s[
        i - 1] == 0xa8 || s[i - 1] == 0xa9 || s[i - 1] == 0xaf) {
        3
    } else if i >= 3 && s[i - 3] == 0xe2 && s[i - 2] == 0x81 && s[i - 1] == 0x9f {
        3
    } else if i >= 3 && s[i - 3] == 0xe3 && s[i - 2] == 0x80 && s[i - 1] == 0x80 {
        3
    } else {
        0
    }
}

/// The position after all leading whitespace characters from `i` on.
pub open spec fn start_idx(s: Seq<u8>, i: int) -> int
    decreases s.len() - i,
{
    let k = space_run_at(s, i);
    if k == 0 {
        i
    } else {
        start_idx(s, i + k)
    }
}

/// The position before all trailing whitespace characters below `i`.
pub open spec fn end_idx(s: Seq<u8>, i: int) -> int
    decreases i,
{
    let k = space_run_before(s, i);
    if k == 0 {
        i
    } else {
        end_idx(s, i - k)
    }
}

/// The input with leading and trailing Unicode whitespace removed.
pub open spec fn trimmed(s: Seq<u8>) -> Seq<u8> {
    let lo = start_idx(s, 0);
    let hi = end_idx(s, s.len() as int);
    if lo <= hi {
        s.subrange(lo, hi)
    } else {
        Seq::empty()
    }
}

/// `join ` as bytes.
pub open spec fn join_word() -> Seq<u8> {
    seq![106u8, 111, 105, 110, 32]
}

/// `post ` as bytes.
pub open spec fn post_word() -> Seq<u8> {
    seq![112u8, 111, 115, 116, 32]
}

/// The request a command line stands for, if any. After trimming, a line
/// `join g` with no space in `g` is a join; a line `post g rest` whose
/// first space after `post ` separates the group from the message is a
/// post; anything else is no command.
pub open spec fn parse_command_spec(s: Seq<u8>) -> Option<ClientMsg> {
    parse_trimmed_spec(trimmed(s))
}

/// The index of the first space at or after `from`, or the length when
/// there is none.
pub open spec fn first_space(s: Seq<u8>, from: int) -> int
    decreases s.len() - from,
{
    if from < 0 || from >= s.len() {
        s.len() as int
    } else if s[from] == 32 {
        from
    } else {
        first_space(s, from + 1)
    }
}

fn space_run_at_exec(s: &Vec<u8>, i: usize) -> (k: usize)
    requires
        i <= s.len(),
    ensures
        k == space_run_at(s@, i as int),
{
    if s.len() - i >= 1 && (s[i] == 32 || s[i] == 9 || s[i] == 10 || s[i] == 11 || s[i] == 12
        || s[i] == 13) {
        1
    } else if s.len() - i >= 2 && s[i] == 0xc2 && (s[i + 1] == 0x85 || s[i + 1] == 0xa0) {
        2
    } else if s.len() - i >= 3 && s[i] == 0xe1 && s[i + 1] == 0x9a && s[i + 2] == 0x80 {
        3
    } else if s.len() - i >= 3 && s[i] == 0xe2 && s[i + 1] == 0x80 && (0x80 <= s[i + 2] && s[i
        + 2] <= 0x8a || s[i + 2] == 0xa8 || s[i + 2] == 0xa9 || s[i + 2] == 0xaf) {
        3
    } else if s.len() - i >= 3 && s[i] == 0xe2 && s[i + 1] == 0x81 && s[i + 2] == 0x9f {
        3
    } else if s.len() - i >= 3 && s[i] == 0xe3 && s[i + 1] == 0x80 && s[i + 2] == 0x80 {
        3
    } else {
        0
    }
}

fn space_run_before_exec(s: &Vec<u8>, i: usize) -> (k: usize)
    requires
        i <= s.len(),
    ensures
        k == space_run_before(s@, i as int),
{
    if i >= 1 && (s[i - 1] == 32 || s[i - 1] == 9 || s[i - 1] == 10 || s[i - 1] == 11 || s[i
        - 1] == 12 || s[i - 1] == 13) {
        1
    } else if i >= 2 && s[i - 2] == 0xc2 && (s[i - 1] == 0x85 || s[i - 1] == 0xa0) {
        2
    } else if i >= 3 && s[i - 3] == 0xe1 && s[i - 2] == 0x9a && s[i - 1] == 0x80 {
        3
    } else if i >= 3 && s[i - 3] == 0xe2 && s[i - 2] == 0x80 && (0x80 <= s[i - 1] && s[i - 1]
        <= 0x8a || s[i - 1] == 0xa8 || s[i - 1] == 0xa9 || s[i - 1] == 0xaf) {
        3
    } else if i >= 3 && s[i - 3] == 0xe2 && s[i - 2] == 0x81 && s[i - 1] == 0x9f {
        3
    } else if i >= 3 && s[i - 3] == 0xe3 && s[i - 2] == 0x80 && s[i - 1] == 0x80 {
        3
    } else {
        0
    }
}

/// Copies `s[lo..hi]` out.
fn copy_range(s: &Vec<u8>, lo: usize, hi: usize) -> (r: Vec<u8>)
    requires
        lo <= hi <= s.len(),
    ensures
        r@ == s@.subrange(lo as int, hi as int),
{
    let mut out: Vec<u8> = Vec::new();
    let mut i: usize = lo;
    while i < hi
        invariant
            lo <= i <= hi <= s.len(),
            out@ == s@.subrange(lo as int, i as int),
        decreases hi - i,
    {
        out.push(s[i]);
        proof {
            assert(out@ =~= s@.subrange(lo as int, i + 1));
        }
        i = i + 1;
    }
    out
}

/// Parses one line typed at the client: `join GROUP`, or
/// `post GROUP MESSAGE` where the message is everything after the first
/// space that follows the group name. Surrounding Unicode whitespace is
/// ignored. Returns `None` for anything else.
pub fn parse_command(line: &Vec<u8>) -> (r: Option<FromClient>)
    ensures
        match r {
            Some(p) => parse_command_spec(line@) == Some(p@),
            None => parse_command_spec(line@) is None,
        },
{
    let mut lo: usize = 0;
    let mut k: usize = space_run_at_exec(line, 0);
    while k != 0
        invariant
            lo <= line.len(),
            k == space_run_at(line@, lo as int),
            start_idx(line@, 0) == start_idx(line@, lo as int),
        decreases line.len() - lo,
    {
        proof {
            assert(lo + k <= line@.len());
        }
        lo = lo + k;
        k = space_run_at_exec(line, lo);
    }
    let mut hi: usize = line.len();
    let mut k2: usize = space_run_before_exec(line, hi);
    while k2 != 0
        invariant
            hi <= line.len(),
            k2 == space_run_before(line@, hi as int),
            end_idx(line@, line@.len() as int) == end_idx(line@, hi as int),
        decreases hi,
    {
        proof {
            assert(k2 <= hi);
        }
        hi = hi - k2;
        k2 = space_run_before_exec(line, hi);
    }
    proof {
        assert(start_idx(line@, 0) == lo);
        assert(end_idx(line@, line@.len() as int) == hi);
    }
    if lo <= hi {
        let t = copy_range(line, lo, hi);
        proof {
            assert(t@ == trimmed(line@));
        }
        parse_trimmed(&t)
    } else {
        proof {
            assert(trimmed(line@) =~= Seq::<u8>::empty());
            assert(parse_trimmed_spec(trimmed(line@)) is None);
        }
        None
    }
}

/// Parses an already-trimmed command line.
#[verifier::loop_isolation(false)]
fn parse_trimmed(t: &Vec<u8>) -> (r: Option<FromClient>)
    ensures
        ({
            let s = t@;
            match r {
                Some(p) => parse_trimmed_spec(s) == Some(p@),
                None => parse_trimmed_spec(s) is None,
            }
        }),
{
    if t.len() > 5 && t[0] == 106 && t[1] == 111 && t[2] == 105 && t[3] == 110 && t[4] == 32 {
        proof {
            assert(t@.take(5) =~= join_word());
        }
        let mut k: usize = 5;
        while k < t.len()
            invariant
                5 <= k <= t.len(),
                forall|i: int| 5 <= i < k ==> t@[i] != 32,
            decreases t.len() - k,
        {
            if t[k] == 32 {
                proof {
                    assert(t@.skip(5)[k - 5] == 32);
                }
                return None;
            }
            k = k + 1;
        }
        proof {
            assert(forall|i: int| 0 <= i < t@.skip(5).len() ==> t@.skip(5)[i] != 32);
        }
        let g = copy_range(t, 5, t.len());
        proof {
            assert(g@ =~= t@.skip(5));
        }
        Some(FromClient::Join { group_name: g })
    } else if t.len() > 5 && t[0] == 112 && t[1] == 111 && t[2] == 115 && t[3] == 116 && t[4]
        == 32 {
        proof {
            assert(t@.take(5) =~= post_word());
            assert(!(t@.take(5) == join_word()));
        }
        let mut k: usize = 5;
        while k < t.len()
            invariant
                5 <= k <= t.len(),
                forall|i: int| 5 <= i < k ==> t@[i] != 32,
            decreases t.len() - k,
        {
            if t[k] == 32 {
                proof {
                    assert(t@.skip(5)[k - 5] == 32);
                    lemma_first_space_scan(t@.skip(5), 0, k - 5);
                }
                let g = copy_range(t, 5, k);
                let m = copy_range(t, k + 1, t.len());
                proof {
                    assert(g@ =~= t@.skip(5).take(k - 5));
                    assert(m@ =~= t@.skip(5).skip(k - 5 + 1));
                }
                return Some(FromClient::Post { group_name: g, message: m });
            }
            k = k + 1;
        }
        proof {
            assert(forall|i: int| 0 <= i < t@.skip(5).len() ==> t@.skip(5)[i] != 32);
        }
        None
    } else {
        proof {
            lemma_word_mismatch(t@);
        }
        None
    }
}

/// The trimmed-line grammar, shared by spec and implementation.
pub open spec fn parse_trimmed_spec(t: Seq<u8>) -> Option<ClientMsg> {
    if t.len() > join_word().len() && t.take(join_word().len() as int) == join_word() {
        let rest = t.skip(join_word().len() as int);
        if forall|i: int| 0 <= i < rest.len() ==> rest[i] != 32 {
            Some(ClientMsg::Join { group_name: rest })
        } else {
            None
        }
    } else if t.len() > post_word().len() && t.take(post_word().len() as int) == post_word() {
        let rest = t.skip(post_word().len() as int);
        if exists|i: int| 0 <= i < rest.len() && rest[i] == 32 {
            let cut = first_space(rest, 0);
            Some(ClientMsg::Post {
                group_name: rest.take(cut),
                message: rest.skip(cut + 1),
            })
        } else {
            None
        }
    } else {
        None
    }
}

proof fn lemma_first_space_scan(s: Seq<u8>, from: int, k: int)
    requires
        0 <= from <= k < s.len(),
        forall|i: int| from <= i < k ==> s[i] != 32,
        s[k] == 32,
    ensures
        first_space(s, from) == k,
    decreases k - from,
{
    if from < k {
        lemma_first_space_scan(s, from + 1, k);
    }
}

proof fn lemma_word_mismatch(t: Seq<u8>)
    requires
        !(t.len() > 5 && t[0] == 106 && t[1] == 111 && t[2] == 105 && t[3] == 110 && t[4]
            == 32),
        !(t.len() > 5 && t[0] == 112 && t[1] == 111 && t[2] == 115 && t[3] == 116 && t[4]
            == 32),
    ensures
        parse_trimmed_spec(t) is None,
{
    if t.len() > 5 {
        if t.take(5) == join_word() {
            assert(t[0] == t.take(5)[0] && t[1] == t.take(5)[1] && t[2] == t.take(5)[2] && t[3]
                == t.take(5)[3] && t[4] == t.take(5)[4]);
        }
        if t.take(5) == post_word() {
            assert(t[0] == t.take(5)[0] && t[1] == t.take(5)[1] && t[2] == t.take(5)[2] && t[3]
                == t.take(5)[3] && t[4] == t.take(5)[4]);
        }
    }
}

} // verus!
