use vstd::prelude::*;

verus! {

pub open spec fn string_views(s: Seq<String>) -> Seq<Seq<char>> {
    s.map_values(|t: String| t@)
}

/// Position of the first occurrence of `p` in `s` at or after `i`, or the length of `s` when
/// there is none.
pub open spec fn find_from(s: Seq<char>, p: Seq<char>, i: int) -> int
    decreases s.len() + 1 - i,
{
    if i < 0 || i + p.len() > s.len() {
        s.len() as int
    } else if s.subrange(i, i + p.len()) == p {
        i
    } else {
        find_from(s, p, i + 1)
    }
}

/// Whether `p` occurs in `s`.
pub open spec fn occurs(s: Seq<char>, p: Seq<char>) -> bool {
    find_from(s, p, 0) < s.len()
}

/// What stands before the first occurrence of `p` in `s` (all of `s` when there is none).
pub open spec fn before(s: Seq<char>, p: Seq<char>) -> Seq<char> {
    s.subrange(0, find_from(s, p, 0))
}

/// What stands after the first occurrence of `p` in `s`.
pub open spec fn after(s: Seq<char>, p: Seq<char>) -> Seq<char> {
    s.subrange(find_from(s, p, 0) + p.len(), s.len() as int)
}

/// The second piece of `s` split on `p`: what lies between its first and second occurrence.
pub open spec fn second_piece(s: Seq<char>, p: Seq<char>) -> Seq<char> {
    before(after(s, p), p)
}

/// Pieces of `s` split on every occurrence of `c`.
pub open spec fn split_char(s: Seq<char>, c: char) -> Seq<Seq<char>>
    decreases s.len(),
    via split_char_decreases
{
    if occurs(s, seq![c]) {
        seq![before(s, seq![c])] + split_char(after(s, seq![c]), c)
    } else {
        seq![s]
    }
}

#[via_fn]
proof fn split_char_decreases(s: Seq<char>, c: char) {
    lemma_find_from_bounds(s, seq![c], 0);
}

/// Where a search for `p` from `i` ends: no earlier than `i`, and at an occurrence of `p` that
/// fits in `s` unless it ends at the length of `s`.
pub proof fn lemma_find_from_bounds(s: Seq<char>, p: Seq<char>, i: int)
    requires
        0 <= i,
    ensures
        i <= find_from(s, p, i) || find_from(s, p, i) == s.len(),
        find_from(s, p, i) <= s.len(),
        find_from(s, p, i) < s.len() ==> find_from(s, p, i) + p.len() <= s.len()
            && s.subrange(find_from(s, p, i), find_from(s, p, i) + p.len()) == p,
    decreases s.len() + 1 - i,
{
    if i + p.len() <= s.len() && s.subrange(i, i + p.len()) != p {
        lemma_find_from_bounds(s, p, i + 1);
    }
}

/// Position of the first occurrence of `p` in `s`, or the length of `s` when there is none.
pub(crate) fn find(s: &str, p: &str) -> (r: usize)
    requires
        p@.len() > 0,
    ensures
        r == find_from(s@, p@, 0),
        r <= s@.len(),
        r < s@.len() ==> r + p@.len() <= s@.len(),
{
    let n = s.unicode_len();
    let m = p.unicode_len();
    let mut i: usize = 0;
    while i < n
        invariant
            n == s@.len(),
            m == p@.len() > 0,
            i <= n,
            find_from(s@, p@, i as int) == find_from(s@, p@, 0),
        decreases n - i,
    {
        if m > n - i {
            return n;
        }
        let w = s.substring_char(i, i + m);
        if str_eq(w, p) {
            return i;
        }
        i = i + 1;
    }
    n
}

/// Whether two strings hold the same characters.
pub(crate) fn str_eq(a: &str, b: &str) -> (r: bool)
    ensures
        r == (a@ == b@),
{
    let n = a.unicode_len();
    if n != b.unicode_len() {
        return false;
    }
    let mut i: usize = 0;
    while i < n
        invariant
            i <= n,
            n == a@.len() == b@.len(),
            a@.subrange(0, i as int) == b@.subrange(0, i as int),
        decreases n - i,
    {
        if a.get_char(i) != b.get_char(i) {
            assert(a@[i as int] != b@[i as int]);
            return false;
        }
        assert(a@.subrange(0, i + 1) =~= a@.subrange(0, i as int).push(a@[i as int]));
        assert(b@.subrange(0, i + 1) =~= b@.subrange(0, i as int).push(b@[i as int]));
        i = i + 1;
    }
    assert(a@ =~= a@.subrange(0, n as int));
    assert(b@ =~= b@.subrange(0, n as int));
    true
}

/// Splits `s` at the first occurrence of `p`: what stands before it, and what after it.
pub(crate) fn split_once<'a>(s: &'a str, p: &str) -> (r: (&'a str, &'a str))
    requires
        p@.len() > 0,
    ensures
        r.0@ == before(s@, p@),
        occurs(s@, p@) ==> r.1@ == after(s@, p@),
        !occurs(s@, p@) ==> r.1@.len() == 0,
{
    let n = s.unicode_len();
    let i = find(s, p);
    let m = p.unicode_len();
    let first = s.substring_char(0, i);
    if i < n {
        (first, s.substring_char(i + m, n))
    } else {
        (first, s.substring_char(n, n))
    }
}

/// Pieces of `s` split on every occurrence of `c`.
pub fn split_on_char(s: &str, c: &str) -> (r: Vec<String>)
    requires
        c@.len() == 1,
    ensures
        string_views(r@) == split_char(s@, c@[0]),
    decreases s@.len(),
{
    proof {
        assert(c@ =~= seq![c@[0]]);
    }
    let n = s.unicode_len();
    let i = find(s, c);
    if i < n {
        let (head, tail) = split_once(s, c);
        let mut rest = split_on_char(tail, c);
        let ghost rest_v = string_views(rest@);
        rest.insert(0, String::from_str(head));
        proof {
            assert(string_views(rest@) =~= seq![head@] + rest_v);
        }
        rest
    } else {
        let mut v: Vec<String> = Vec::new();
        v.push(String::from_str(s));
        proof {
            assert(string_views(v@) =~= seq![s@]);
        }
        v
    }
}

/// The character of a decimal digit.
pub open spec fn digit_char(d: int) -> char {
    "0123456789"@[d]
}

/// A number written in decimal, without leading zeros.
pub open spec fn decimal(n: nat) -> Seq<char>
    decreases n,
{
    if n < 10 {
        seq![digit_char(n as int)]
    } else {
        decimal(n / 10) + seq![digit_char((n % 10) as int)]
    }
}

/// A number written in decimal, padded with a zero to at least two digits.
pub open spec fn padded2(n: nat) -> Seq<char> {
    if n < 10 {
        seq!['0'] + decimal(n)
    } else {
        decimal(n)
    }
}

/// A number written in decimal, without leading zeros.
pub fn decimal_text(n: u32) -> (r: String)
    ensures
        r@ == decimal(n as nat),
    decreases n,
{
    let digits = "0123456789";
    proof {
        reveal_strlit("0123456789");
    }
    let d = (n % 10) as usize;
    let last = digits.substring_char(d, d + 1);
    if n < 10 {
        let r = String::from_str(last);
        assert(r@ =~= decimal(n as nat));
        r
    } else {
        let mut r = decimal_text(n / 10);
        r.append(last);
        assert(r@ =~= decimal(n as nat));
        r
    }
}

/// A number written in decimal, padded with a zero to at least two digits.
pub fn padded2_text(n: u32) -> (r: String)
    ensures
        r@ == padded2(n as nat),
{
    let zero = "0";
    proof {
        reveal_strlit("0");
    }
    if n < 10 {
        let mut r = String::from_str(zero);
        let t = decimal_text(n);
        r.append(t.as_str());
        assert(r@ =~= padded2(n as nat));
        r
    } else {
        decimal_text(n)
    }
}

/// The extended grapheme clusters of a text, in order.
pub uninterp spec fn graphemes_of(s: Seq<char>) -> Seq<Seq<char>>;

/// Relies on unicode-segmentation's `UnicodeSegmentation::graphemes` with extended clusters:
/// the grapheme clusters of `s`, in order, which depend on the characters alone.
#[verifier::external_body]
fn graphemes(s: &str) -> (r: Vec<String>)
    ensures
        string_views(r@) == graphemes_of(s@),
{
    unicode_segmentation::UnicodeSegmentation::graphemes(s, true).map(|g| g.to_string()).collect()
}

/// A text cut to its first `len` clusters `g` followed by `...`, when it has more than `len`;
/// the text `s` unchanged otherwise.
pub open spec fn truncated(g: Seq<Seq<char>>, s: Seq<char>, len: nat) -> Seq<char> {
    if g.len() > len {
        g.take(len as int).flatten() + "..."@
    } else {
        s
    }
}

/// Cuts the text `s`, whose clusters are `g`, to its first `len` clusters followed by `...`
/// when it has more than `len`; keeps it whole otherwise.
pub fn truncate_graphemes(g: &Vec<String>, s: &str, len: usize) -> (r: String)
    ensures
        r@ == truncated(string_views(g@), s@, len as nat),
{
    if g.len() <= len {
        return String::from_str(s);
    }
    let ghost gv = string_views(g@);
    let mut r = String::new();
    let mut i: usize = 0;
    proof {
        assert(gv.take(0) =~= Seq::<Seq<char>>::empty());
    }
    while i < len
        invariant
            i <= len < g@.len(),
            gv == string_views(g@),
            r@ == gv.take(i as int).flatten(),
        decreases len - i,
    {
        r.append(g[i].as_str());
        proof {
            assert(gv.take(i + 1) =~= gv.take(i as int).push(gv[i as int]));
            gv.take(i as int).lemma_flatten_push(gv[i as int]);
        }
        i = i + 1;
    }
    r.append("...");
    r
}

/// Cuts a text to its first `len` grapheme clusters followed by `...` when it has more than
/// `len`; keeps it whole otherwise.
pub fn truncate_string(s: &str, len: usize) -> (r: String)
    ensures
        r@ == truncated(graphemes_of(s@), s@, len as nat),
{
    let g = graphemes(s);
    truncate_graphemes(&g, s, len)
}

} // verus!
