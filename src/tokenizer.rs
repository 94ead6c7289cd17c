use vstd::prelude::*;
use vstd::string::StrSliceExecFns;
use vstd::utf8::encode_utf8;

use crate::error::{Failure, ParseError};

verus! {

/// `c` occurs twice in a row at index `i` of `s`.
pub open spec fn pair_at(s: Seq<char>, c: char, i: int) -> bool {
    0 <= i && i + 1 < s.len() && s[i] == c && s[i + 1] == c
}

/// `i` is the first index of `s` at which `c` occurs twice in a row.
pub open spec fn is_first_pair(s: Seq<char>, c: char, i: int) -> bool {
    &&& pair_at(s, c, i)
    &&& forall|j: int| 0 <= j < i ==> !#[trigger] pair_at(s, c, j)
}

/// Where `c` first occurs twice in a row in `s`.
pub open spec fn find_pair(s: Seq<char>, c: char) -> Option<int> {
    if exists|i: int| is_first_pair(s, c, i) {
        Some(choose|i: int| is_first_pair(s, c, i))
    } else {
        None
    }
}

/// `i` is the first index of `s` that holds `c`.
pub open spec fn is_first(s: Seq<char>, c: char, i: int) -> bool {
    &&& 0 <= i < s.len()
    &&& s[i] == c
    &&& forall|j: int| 0 <= j < i ==> s[j] != c
}

/// Where `c` first occurs in `s`.
pub open spec fn find_char(s: Seq<char>, c: char) -> Option<int> {
    if exists|i: int| is_first(s, c, i) {
        Some(choose|i: int| is_first(s, c, i))
    } else {
        None
    }
}

/// First index in `lo..hi` at which `c` occurs twice in a row, within `cs[lo..hi]`.
fn scan_pair(cs: &Vec<char>, lo: usize, hi: usize, c: char) -> (r: Option<usize>)
    requires
        lo <= hi <= cs@.len(),
    ensures
        match find_pair(cs@.subrange(lo as int, hi as int), c) {
            Some(i) => r == Some((lo + i) as usize),
            None => r is None,
        },
{
    let ghost s = cs@.subrange(lo as int, hi as int);
    if hi - lo < 2 {
        return None;
    }
    let mut k: usize = lo;
    while k < hi - 1
        invariant
            lo <= k <= hi,
            lo + 2 <= hi,
            hi <= cs@.len(),
            s == cs@.subrange(lo as int, hi as int),
            forall|j: int| 0 <= j < k - lo ==> !#[trigger] pair_at(s, c, j),
        decreases hi - k,
    {
        if cs[k] == c && cs[k + 1] == c {
            assert(is_first_pair(s, c, k - lo));
            proof { lemma_first_pair_unique(s, c, k - lo); }
            return Some(k);
        }
        assert(!pair_at(s, c, k - lo));
        k = k + 1;
    }
    assert forall|j: int| !pair_at(s, c, j) by {
        if 0 <= j < k - lo {
        }
    }
    None
}

proof fn lemma_first_pair_unique(s: Seq<char>, c: char, i: int)
    requires
        is_first_pair(s, c, i),
    ensures
        find_pair(s, c) == Some(i),
{
    let j = choose|j: int| is_first_pair(s, c, j);
    assert(is_first_pair(s, c, j));
    if j < i {
        assert(!pair_at(s, c, j));
    } else if i < j {
        assert(!pair_at(s, c, i));
    }
}


/// What `str::trim` returns for the characters `s`.
pub uninterp spec fn trimmed(s: Seq<char>) -> Seq<char>;

/// Byte offset of character `i` in `s`, counted in UTF-8.
pub open spec fn offset(s: Seq<char>, i: int) -> nat {
    encode_utf8(s.take(i)).len()
}

/// Prepends `front` to the segments of `rest`, or passes its failure on.
pub open spec fn prepend(
    front: Seq<(bool, Seq<char>)>,
    rest: Result<Seq<(bool, Seq<char>)>, Failure>,
) -> Result<Seq<(bool, Seq<char>)>, Failure> {
    match rest {
        Ok(r) => Ok(front + r),
        Err(e) => Err(e),
    }
}

/// `pre`, then the literal `mid`, then `post`; the first failure wins.
pub open spec fn around(
    pre: Result<Seq<(bool, Seq<char>)>, Failure>,
    mid: char,
    post: Result<Seq<(bool, Seq<char>)>, Failure>,
) -> Result<Seq<(bool, Seq<char>)>, Failure> {
    match pre {
        Ok(p) => prepend(p + seq![(false, seq![mid])], post),
        Err(e) => Err(e),
    }
}

/// The segments of a body: `(false, text)` for literal text, `(true, name)` for a
/// placeholder. An escaped `{{` is handled first, then an escaped `}}`, then
/// the first `{ ... }` pair.
pub open spec fn segments(s: Seq<char>) -> Result<Seq<(bool, Seq<char>)>, Failure>
    decreases s.len(),
{
    match find_pair(s, '{') {
        Some(i) => around(segments(s.take(i)), '{', segments(s.skip(i + 2))),
        None => match find_pair(s, '}') {
            Some(i) => around(segments(s.take(i)), '}', segments(s.skip(i + 2))),
            None => match (find_char(s, '{'), find_char(s, '}')) {
                (None, None) => Ok(seq![(false, s)]),
                (Some(a), None) => Err(Failure::MissingCloseBrace(offset(s, a))),
                (None, Some(b)) => Err(Failure::MissingOpenBrace(offset(s, b))),
                (Some(a), Some(b)) => if b < a {
                    Err(Failure::MissingOpenBrace(offset(s, b)))
                } else {
                    prepend(
                        seq![(false, s.take(a)), (true, trimmed(s.subrange(a + 1, b)))],
                        segments(s.skip(b + 1)),
                    )
                },
            },
        },
    }
}

/// Relies on `str::trim`: the result depends on the characters alone.
#[verifier::external_body]
fn trim_name(s: &str) -> (r: String)
    ensures
        r@ == trimmed(s@),
{
    s.trim().to_owned()
}

proof fn lemma_encode_concat(a: Seq<char>, b: Seq<char>)
    ensures
        encode_utf8(a + b) == encode_utf8(a) + encode_utf8(b),
    decreases a.len(),
{
    if a.len() == 0 {
        assert(a + b =~= b);
        assert(encode_utf8(a) + encode_utf8(b) =~= encode_utf8(b));
    } else {
        assert((a + b).drop_first() =~= a.drop_first() + b);
        lemma_encode_concat(a.drop_first(), b);
        assert(encode_utf8(a + b) =~= encode_utf8(a) + encode_utf8(b));
    }
}

/// Byte offset of character `k` within the characters `lo..k` of `body`.
fn byte_offset(body: &str, lo: usize, k: usize) -> (r: usize)
    requires
        lo <= k <= body@.len(),
    ensures
        r == encode_utf8(body@.subrange(lo as int, k as int)).len(),
{
    // The whole body's byte length fits in a usize, and so does any part of it.
    let _byte_len: usize = body.as_bytes().len();
    proof {
        let s = body@;
        let p = s.subrange(0, lo as int);
        let m = s.subrange(lo as int, k as int);
        let q = s.subrange(k as int, s.len() as int);
        assert(s =~= p + m + q);
        lemma_encode_concat(p + m, q);
        lemma_encode_concat(p, m);
    }
    body.substring_char(lo, k).len()
}

/// What tokenizing the characters `lo..hi` of `cs` does to `out`, and returns.
pub open spec fn scanned(
    cs: Seq<char>,
    lo: int,
    hi: int,
    before: Seq<(bool, Seq<char>)>,
    after: Seq<(bool, Seq<char>)>,
    r: Result<(), ParseError>,
) -> bool {
    match segments(cs.subrange(lo, hi)) {
        Ok(segs) => r is Ok && after == before + segs,
        Err(e) => r matches Err(err) && err@ == e,
    }
}

/// Tokenizes the characters `lo..hi` of `body` (whose characters are `cs`) and
/// appends the segments to `out`.
fn scan(body: &str, cs: &Vec<char>, lo: usize, hi: usize, out: &mut Vec<(bool, String)>) -> (r:
    Result<(), ParseError>)
    requires
        cs@ == body@,
        lo <= hi <= cs@.len(),
    ensures
        scanned(cs@, lo as int, hi as int, old(out).deep_view(), final(out).deep_view(), r),
    decreases hi - lo, 1nat,
{
    match scan_pair(cs, lo, hi, '{') {
        Some(i) => scan_escape(body, cs, lo, hi, i, '{', out),
        None => match scan_pair(cs, lo, hi, '}') {
            Some(i) => scan_escape(body, cs, lo, hi, i, '}', out),
            None => scan_plain(body, cs, lo, hi, out),
        },
    }
}

/// Tokenizes the characters `lo..hi` of `body` around the escaped brace pair at `i`.
fn scan_escape(
    body: &str,
    cs: &Vec<char>,
    lo: usize,
    hi: usize,
    i: usize,
    c: char,
    out: &mut Vec<(bool, String)>,
) -> (r: Result<(), ParseError>)
    requires
        cs@ == body@,
        lo <= hi <= cs@.len(),
        lo <= i,
        c == '{' ==> find_pair(cs@.subrange(lo as int, hi as int), '{') == Some(i - lo),
        c == '}' ==> find_pair(cs@.subrange(lo as int, hi as int), '{') is None
            && find_pair(cs@.subrange(lo as int, hi as int), '}') == Some(i - lo),
        c == '{' || c == '}',
    ensures
        scanned(cs@, lo as int, hi as int, old(out).deep_view(), final(out).deep_view(), r),
    decreases hi - lo, 0nat,
{
    let ghost s = cs@.subrange(lo as int, hi as int);
    let ghost k = i - lo;
    assert(is_first_pair(s, c, k));
    assert(segments(s) == around(segments(s.take(k)), c, segments(s.skip(k + 2))));
    assert(s.take(k) =~= cs@.subrange(lo as int, i as int));
    assert(s.skip(k + 2) =~= cs@.subrange(i + 2, hi as int));
    let ghost start = out.deep_view();
    match scan(body, cs, lo, i, out) {
        Ok(()) => {},
        Err(e) => return Err(e),
    }
    let lit = if c == '{' {
        "{".to_owned()
    } else {
        "}".to_owned()
    };
    proof {
        reveal_strlit("{");
        reveal_strlit("}");
        assert(lit@ =~= seq![c]);
    }
    let ghost mid = out.deep_view();
    out.push((false, lit));
    assert(out.deep_view() =~= mid.push((false, seq![c])));
    let r = scan(body, cs, i + 2, hi, out);
    proof {
        if let Ok(p) = segments(s.take(k)) {
            if let Ok(q) = segments(s.skip(k + 2)) {
                assert(out.deep_view() =~= start + (p + seq![(false, seq![c])] + q));
            }
        }
    }
    r
}

/// Tokenizes the characters `lo..hi` of `body`, which hold no escaped brace pair.
fn scan_plain(body: &str, cs: &Vec<char>, lo: usize, hi: usize, out: &mut Vec<(bool, String)>) -> (r:
    Result<(), ParseError>)
    requires
        cs@ == body@,
        lo <= hi <= cs@.len(),
        find_pair(cs@.subrange(lo as int, hi as int), '{') is None,
        find_pair(cs@.subrange(lo as int, hi as int), '}') is None,
    ensures
        scanned(cs@, lo as int, hi as int, old(out).deep_view(), final(out).deep_view(), r),
    decreases hi - lo, 0nat,
{
    let ghost s = cs@.subrange(lo as int, hi as int);
    let open = scan_char(cs, lo, hi, '{');
    let close = scan_char(cs, lo, hi, '}');
    match (open, close) {
        (None, None) => {
            let text = body.substring_char(lo, hi).to_owned();
            let ghost start = out.deep_view();
            out.push((false, text));
            assert(out.deep_view() =~= start + seq![(false, s)]);
            Ok(())
        },
        (Some(a), None) => {
            assert(s.take(a - lo) =~= cs@.subrange(lo as int, a as int));
            Err(ParseError::MissingCloseBrace(byte_offset(body, lo, a)))
        },
        (None, Some(b)) => {
            assert(s.take(b - lo) =~= cs@.subrange(lo as int, b as int));
            Err(ParseError::MissingOpenBrace(byte_offset(body, lo, b)))
        },
        (Some(a), Some(b)) => {
            if b < a {
                assert(s.take(b - lo) =~= cs@.subrange(lo as int, b as int));
                return Err(ParseError::MissingOpenBrace(byte_offset(body, lo, b)));
            }
            assert(s.take(a - lo) =~= cs@.subrange(lo as int, a as int));
            assert(s.subrange(a - lo + 1, b - lo) =~= cs@.subrange(a + 1, b as int));
            assert(s.skip(b - lo + 1) =~= cs@.subrange(b + 1, hi as int));
            let text = body.substring_char(lo, a).to_owned();
            let name = trim_name(body.substring_char(a + 1, b));
            let ghost start = out.deep_view();
            out.push((false, text));
            out.push((true, name));
            let ghost front = seq![
                (false, s.take(a - lo)),
                (true, trimmed(s.subrange(a - lo + 1, b - lo))),
            ];
            assert(out.deep_view() =~= start + front);
            let r = scan(body, cs, b + 1, hi, out);
            proof {
                if let Ok(q) = segments(s.skip(b - lo + 1)) {
                    assert(out.deep_view() =~= start + (front + q));
                }
            }
            r
        },
    }
}

/// First index in `lo..hi` that holds `c`, within `cs[lo..hi]`.
fn scan_char(cs: &Vec<char>, lo: usize, hi: usize, c: char) -> (r: Option<usize>)
    requires
        lo <= hi <= cs@.len(),
    ensures
        match find_char(cs@.subrange(lo as int, hi as int), c) {
            Some(i) => r == Some((lo + i) as usize),
            None => r is None,
        },
{
    let ghost s = cs@.subrange(lo as int, hi as int);
    let mut k: usize = lo;
    while k < hi
        invariant
            lo <= k <= hi,
            hi <= cs@.len(),
            s == cs@.subrange(lo as int, hi as int),
            forall|j: int| 0 <= j < k - lo ==> s[j] != c,
        decreases hi - k,
    {
        if cs[k] == c {
            assert(is_first(s, c, k - lo));
            proof {
                let j = choose|j: int| is_first(s, c, j);
                assert(is_first(s, c, j));
                if j < k - lo {
                    assert(s[j] != c);
                } else if k - lo < j {
                    assert(s[k - lo] != c);
                }
            }
            return Some(k);
        }
        k = k + 1;
    }
    None
}

/// The characters of `body`, in order.
fn chars_of(body: &str) -> (r: Vec<char>)
    ensures
        r@ == body@,
{
    let n = body.unicode_len();
    let mut r: Vec<char> = Vec::new();
    let mut k: usize = 0;
    while k < n
        invariant
            n == body@.len(),
            k <= n,
            r@ == body@.take(k as int),
        decreases n - k,
    {
        r.push(body.get_char(k));
        k = k + 1;
        assert(r@ =~= body@.take(k as int));
    }
    assert(r@ =~= body@);
    r
}

/// Splits `body` into literal text and placeholder names, in order.
///
/// `{{` and `}}` stand for a literal brace; a placeholder name is the text between
/// `{` and the first `}` after it, without surrounding whitespace.
pub fn render_helper(body: &str) -> (r: Result<Vec<(bool, String)>, ParseError>)
    ensures
        match segments(body@) {
            Ok(segs) => r matches Ok(v) && v.deep_view() == segs,
            Err(e) => r matches Err(err) && err@ == e,
        },
{
    let cs = chars_of(body);
    let mut out: Vec<(bool, String)> = Vec::new();
    assert(cs@.subrange(0, cs@.len() as int) =~= body@);
    assert(out.deep_view() =~= Seq::<(bool, Seq<char>)>::empty());
    match scan(body, &cs, 0, cs.len(), &mut out) {
        Ok(()) => {
            assert(out.deep_view() =~= Seq::<(bool, Seq<char>)>::empty() + out.deep_view());
            Ok(out)
        },
        Err(e) => Err(e),
    }
}

} // verus!
