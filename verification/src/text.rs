//! Byte-level text helpers shared by the parser and the serializer:
//! whitespace trimming, token and line splitting, byte search, ASCII
//! lowercasing, and decimal formatting.

use vstd::prelude::*;

verus! {

/// ASCII whitespace, as `char::is_whitespace` classifies the ASCII range.
pub open spec fn is_ws(b: u8) -> bool {
    b == 9 || b == 10 || b == 11 || b == 12 || b == 13 || b == 32
}

pub fn is_ws_byte(b: u8) -> (r: bool)
    ensures
        r == is_ws(b),
{
    b == 9 || b == 10 || b == 11 || b == 12 || b == 13 || b == 32
}

/// First index at or after `i` holding a byte that is not whitespace
/// (or the length of `s` if only whitespace follows).
pub open spec fn ws_prefix_end(s: Seq<u8>, i: int) -> int
    decreases s.len() - i,
{
    if 0 <= i < s.len() && is_ws(s[i]) {
        ws_prefix_end(s, i + 1)
    } else {
        i
    }
}

/// Last index at or before `j` such that the byte just before it is not
/// whitespace (or 0 if only whitespace precedes `j`).
pub open spec fn ws_suffix_start(s: Seq<u8>, j: int) -> int
    decreases j,
{
    if 0 < j <= s.len() && is_ws(s[j - 1]) {
        ws_suffix_start(s, j - 1)
    } else {
        j
    }
}

/// `s` with all leading and trailing ASCII whitespace removed.
pub open spec fn trim(s: Seq<u8>) -> Seq<u8> {
    let i = ws_prefix_end(s, 0);
    let j = ws_suffix_start(s, s.len() as int);
    if i <= j {
        s.subrange(i, j)
    } else {
        Seq::empty()
    }
}

pub fn trim_bytes(s: &[u8]) -> (r: Vec<u8>)
    ensures
        r@ == trim(s@),
{
    let mut i: usize = 0;
    while i < s.len() && is_ws_byte(s[i])
        invariant
            i <= s@.len(),
            ws_prefix_end(s@, 0) == ws_prefix_end(s@, i as int),
        decreases s@.len() - i,
    {
        i = i + 1;
    }
    let mut j: usize = s.len();
    while j > 0 && is_ws_byte(s[j - 1])
        invariant
            j <= s@.len(),
            ws_suffix_start(s@, s@.len() as int) == ws_suffix_start(s@, j as int),
        decreases j,
    {
        j = j - 1;
    }
    proof {
        assert(ws_prefix_end(s@, i as int) == i as int);
        assert(ws_suffix_start(s@, j as int) == j as int);
    }
    let mut r: Vec<u8> = Vec::new();
    if i < j {
        let mut k: usize = i;
        while k < j
            invariant
                i <= k <= j <= s@.len(),
                r@ == s@.subrange(i as int, k as int),
            decreases j - k,
        {
            r.push(s[k]);
            k = k + 1;
            proof {
                assert(r@ =~= s@.subrange(i as int, k as int));
            }
        }
    } else {
        proof {
            if i as int <= j as int {
                assert(s@.subrange(i as int, j as int) =~= Seq::<u8>::empty());
            }
            assert(r@ =~= trim(s@));
        }
    }
    r
}

/// One step of whitespace-separated tokenization: `cur` holds the bytes of
/// the token in progress, `i` the position reached in `s`.
pub open spec fn tokens_from(s: Seq<u8>, i: int, cur: Seq<u8>) -> Seq<Seq<u8>>
    decreases s.len() - i,
{
    if i < 0 || i >= s.len() {
        if cur.len() > 0 {
            seq![cur]
        } else {
            Seq::empty()
        }
    } else if is_ws(s[i]) {
        if cur.len() > 0 {
            seq![cur] + tokens_from(s, i + 1, Seq::empty())
        } else {
            tokens_from(s, i + 1, Seq::empty())
        }
    } else {
        tokens_from(s, i + 1, cur.push(s[i]))
    }
}

/// The whitespace-separated tokens of `s`, as `str::split_whitespace`
/// yields them on ASCII text: maximal runs of non-whitespace bytes.
pub open spec fn tokens(s: Seq<u8>) -> Seq<Seq<u8>> {
    tokens_from(s, 0, Seq::empty())
}

pub fn split_tokens(s: &[u8]) -> (r: Vec<Vec<u8>>)
    ensures
        r.deep_view() == tokens(s@),
{
    let mut r: Vec<Vec<u8>> = Vec::new();
    let mut cur: Vec<u8> = Vec::new();
    let mut i: usize = 0;
    while i < s.len()
        invariant
            i <= s@.len(),
            tokens(s@) == r.deep_view() + tokens_from(s@, i as int, cur@),
        decreases s@.len() - i,
    {
        let ghost prev_r = r.deep_view();
        let ghost prev_cur = cur@;
        if is_ws_byte(s[i]) {
            if cur.len() > 0 {
                r.push(cur);
                cur = Vec::new();
                proof {
                    assert(r.deep_view() =~~= prev_r.push(prev_cur));
                    assert(prev_r + (seq![prev_cur] + tokens_from(s@, i + 1, Seq::empty()))
                        =~~= prev_r.push(prev_cur) + tokens_from(s@, i + 1, Seq::empty()));
                }
            }
            proof {
                assert(cur@ =~= Seq::<u8>::empty());
                assert(tokens(s@) == r.deep_view() + tokens_from(s@, i + 1, cur@));
            }
        } else {
            cur.push(s[i]);
        }
        i = i + 1;
    }
    if cur.len() > 0 {
        let ghost prev_r = r.deep_view();
        let ghost prev_cur = cur@;
        r.push(cur);
        proof {
            assert(r.deep_view() =~~= prev_r.push(prev_cur));
            assert(prev_r + seq![prev_cur] =~~= prev_r.push(prev_cur));
        }
    } else {
        proof {
            assert(r.deep_view() + Seq::<Seq<u8>>::empty() =~~= r.deep_view());
        }
    }
    r
}

/// Drop a single trailing carriage return, as `str::lines` does to each line.
pub open spec fn strip_cr(s: Seq<u8>) -> Seq<u8> {
    if s.len() > 0 && s[s.len() - 1] == 13 {
        s.take(s.len() - 1)
    } else {
        s
    }
}

/// One step of line splitting: lines are terminated by a line feed, a
/// trailing carriage return is stripped from each, and a final unterminated
/// line is kept only when nonempty.
pub open spec fn lines_from(s: Seq<u8>, i: int, cur: Seq<u8>) -> Seq<Seq<u8>>
    decreases s.len() - i,
{
    if i < 0 || i >= s.len() {
        if cur.len() > 0 {
            seq![strip_cr(cur)]
        } else {
            Seq::empty()
        }
    } else if s[i] == 10 {
        seq![strip_cr(cur)] + lines_from(s, i + 1, Seq::empty())
    } else {
        lines_from(s, i + 1, cur.push(s[i]))
    }
}

/// The lines of `s`: split at line feeds, one trailing carriage return
/// stripped from every line — also from a final unterminated one, where
/// `str::lines` would keep it. The parser cannot tell the two readings
/// apart: a carriage return is whitespace, and every use of a line trims
/// or tokenizes it away.
pub open spec fn lines(s: Seq<u8>) -> Seq<Seq<u8>> {
    lines_from(s, 0, Seq::empty())
}

fn strip_cr_vec(cur: Vec<u8>) -> (r: Vec<u8>)
    ensures
        r@ == strip_cr(cur@),
{
    let mut cur = cur;
    if cur.len() > 0 && cur[cur.len() - 1] == 13 {
        let ghost prev = cur@;
        cur.pop();
        proof {
            assert(cur@ =~= strip_cr(prev));
        }
    }
    cur
}

pub fn split_lines(s: &[u8]) -> (r: Vec<Vec<u8>>)
    ensures
        r.deep_view() == lines(s@),
{
    let mut r: Vec<Vec<u8>> = Vec::new();
    let mut cur: Vec<u8> = Vec::new();
    let mut i: usize = 0;
    while i < s.len()
        invariant
            i <= s@.len(),
            lines(s@) == r.deep_view() + lines_from(s@, i as int, cur@),
        decreases s@.len() - i,
    {
        let ghost prev_r = r.deep_view();
        let ghost prev_cur = cur@;
        if s[i] == 10 {
            let line = strip_cr_vec(cur);
            r.push(line);
            cur = Vec::new();
            proof {
                assert(r.deep_view() =~~= prev_r.push(strip_cr(prev_cur)));
                assert(prev_r + (seq![strip_cr(prev_cur)] + lines_from(s@, i + 1, Seq::empty()))
                    =~~= prev_r.push(strip_cr(prev_cur)) + lines_from(s@, i + 1, Seq::empty()));
            }
        } else {
            cur.push(s[i]);
        }
        i = i + 1;
    }
    if cur.len() > 0 {
        let ghost prev_r = r.deep_view();
        let ghost prev_cur = cur@;
        let line = strip_cr_vec(cur);
        r.push(line);
        proof {
            assert(r.deep_view() =~~= prev_r.push(strip_cr(prev_cur)));
            assert(prev_r + seq![strip_cr(prev_cur)] =~~= prev_r.push(strip_cr(prev_cur)));
        }
    } else {
        proof {
            assert(r.deep_view() + Seq::<Seq<u8>>::empty() =~~= r.deep_view());
        }
    }
    r
}

/// Index of the first occurrence of `b` in `s` at or after `i`.
pub open spec fn find_from(s: Seq<u8>, i: int, b: u8) -> Option<int>
    decreases s.len() - i,
{
    if i < 0 || i >= s.len() {
        Option::None
    } else if s[i] == b {
        Option::Some(i)
    } else {
        find_from(s, i + 1, b)
    }
}

pub fn find_byte(s: &[u8], b: u8) -> (r: Option<usize>)
    ensures
        match r {
            Option::Some(j) => find_from(s@, 0, b) == Option::Some(j as int),
            Option::None => find_from(s@, 0, b) is None,
        },
{
    let mut i: usize = 0;
    while i < s.len()
        invariant
            i <= s@.len(),
            find_from(s@, 0, b) == find_from(s@, i as int, b),
        decreases s@.len() - i,
    {
        if s[i] == b {
            return Option::Some(i);
        }
        i = i + 1;
    }
    Option::None
}

/// ASCII lowercase of one byte.
pub open spec fn lower_byte(b: u8) -> u8 {
    if 65 <= b && b <= 90 {
        (b + 32) as u8
    } else {
        b
    }
}

/// ASCII lowercase of a byte sequence.
pub open spec fn lower(s: Seq<u8>) -> Seq<u8> {
    s.map_values(|b: u8| lower_byte(b))
}

pub fn to_lower(s: &[u8]) -> (r: Vec<u8>)
    ensures
        r@ == lower(s@),
{
    let mut r: Vec<u8> = Vec::new();
    let mut i: usize = 0;
    while i < s.len()
        invariant
            i <= s@.len(),
            r@.len() == i,
            forall|k: int| 0 <= k < i ==> r@[k] == lower_byte(s@[k]),
        decreases s@.len() - i,
    {
        let b = s[i];
        if 65 <= b && b <= 90 {
            r.push(b + 32);
        } else {
            r.push(b);
        }
        i = i + 1;
    }
    proof {
        assert(r@ =~= lower(s@));
    }
    r
}

pub fn bytes_eq(a: &[u8], b: &[u8]) -> (r: bool)
    ensures
        r == (a@ == b@),
{
    if a.len() != b.len() {
        return false;
    }
    let mut i: usize = 0;
    while i < a.len()
        invariant
            i <= a@.len(),
            a@.len() == b@.len(),
            forall|k: int| 0 <= k < i ==> a@[k] == b@[k],
        decreases a@.len() - i,
    {
        if a[i] != b[i] {
            return false;
        }
        i = i + 1;
    }
    proof {
        assert(a@ =~= b@);
    }
    true
}

/// Append every byte of `s` to `out`.
pub fn push_bytes(out: &mut Vec<u8>, s: &[u8])
    ensures
        final(out)@ == old(out)@ + s@,
{
    let mut i: usize = 0;
    while i < s.len()
        invariant
            i <= s@.len(),
            out@ == old(out)@ + s@.take(i as int),
        decreases s@.len() - i,
    {
        out.push(s[i]);
        i = i + 1;
        proof {
            assert(out@ =~= old(out)@ + s@.take(i as int));
        }
    }
    proof {
        assert(out@ =~= old(out)@ + s@);
    }
}

/// Tokenization walks straight over a whitespace-free span, gathering it
/// into the token in progress.
pub proof fn lemma_tokens_from_seg(s: Seq<u8>, i: int, j: int, cur: Seq<u8>)
    requires
        0 <= i <= j <= s.len(),
        forall|k: int| i <= k < j ==> !is_ws(s[k]),
    ensures
        tokens_from(s, i, cur) == tokens_from(s, j, cur + s.subrange(i, j)),
    decreases j - i,
{
    if i == j {
        assert(cur + s.subrange(i, j) =~= cur);
    } else {
        assert(!is_ws(s[i]));
        lemma_tokens_from_seg(s, i + 1, j, cur.push(s[i]));
        assert(cur.push(s[i]) + s.subrange(i + 1, j) =~= cur + s.subrange(i, j));
    }
}

/// Line splitting walks straight over a span without line feeds, gathering
/// it into the line in progress.
pub proof fn lemma_lines_from_seg(s: Seq<u8>, i: int, j: int, cur: Seq<u8>)
    requires
        0 <= i <= j <= s.len(),
        forall|k: int| i <= k < j ==> s[k] != 10,
    ensures
        lines_from(s, i, cur) == lines_from(s, j, cur + s.subrange(i, j)),
    decreases j - i,
{
    if i == j {
        assert(cur + s.subrange(i, j) =~= cur);
    } else {
        lemma_lines_from_seg(s, i + 1, j, cur.push(s[i]));
        assert(cur.push(s[i]) + s.subrange(i + 1, j) =~= cur + s.subrange(i, j));
    }
}

/// Copy the bytes of `s` between `from` and `to` into a fresh vector.
pub fn copy_range(s: &[u8], from: usize, to: usize) -> (r: Vec<u8>)
    requires
        from <= to <= s@.len(),
    ensures
        r@ == s@.subrange(from as int, to as int),
{
    let mut r: Vec<u8> = Vec::new();
    let mut k: usize = from;
    while k < to
        invariant
            from <= k <= to <= s@.len(),
            r@ == s@.subrange(from as int, k as int),
        decreases to - k,
    {
        r.push(s[k]);
        k = k + 1;
        proof {
            assert(r@ =~= s@.subrange(from as int, k as int));
        }
    }
    proof {
        assert(r@ =~= s@.subrange(from as int, to as int));
    }
    r
}

/// The decimal digits of `n`, most significant first, as `u64` values
/// format in base ten.
pub open spec fn dec_spec(n: nat) -> Seq<u8>
    decreases n,
{
    if n < 10 {
        seq![(48 + n) as u8]
    } else {
        dec_spec(n / 10).push((48 + n % 10) as u8)
    }
}

/// Append the decimal digits of `n` to `out`.
pub fn push_dec_u64(out: &mut Vec<u8>, n: u64)
    ensures
        final(out)@ == old(out)@ + dec_spec(n as nat),
    decreases n,
{
    if n < 10 {
        out.push(48 + n as u8);
        proof {
            assert(out@ =~= old(out)@ + dec_spec(n as nat));
        }
    } else {
        push_dec_u64(out, n / 10);
        out.push(48 + (n % 10) as u8);
        proof {
            assert(out@ =~= old(out)@ + dec_spec(n as nat));
        }
    }
}

} // verus!
