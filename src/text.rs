//! Text building blocks: padding, joining, splitting and number formatting.

use vstd::prelude::*;
use vstd::std_specs::iter::IteratorSpec;

verus! {

/// `n` copies of `c`; empty when `n` is not positive.
pub open spec fn fill(n: int, c: char) -> Seq<char> {
    Seq::new(if n > 0 { n as nat } else { 0 }, |_i: int| c)
}

/// `s` followed by copies of `c` up to `width` characters; `s` itself when it
/// is already that long.
pub open spec fn pad_to(s: Seq<char>, width: int, c: char) -> Seq<char> {
    s + fill(width - s.len(), c)
}

/// The pieces joined with `sep` between consecutive pieces.
pub open spec fn join(pieces: Seq<Seq<char>>, sep: Seq<char>) -> Seq<char>
    decreases pieces.len(),
{
    if pieces.len() == 0 {
        Seq::empty()
    } else if pieces.len() == 1 {
        pieces[0]
    } else {
        join(pieces.drop_last(), sep) + sep + pieces.last()
    }
}

/// The characters of each string.
pub open spec fn views(v: Seq<String>) -> Seq<Seq<char>> {
    v.map_values(|s: String| s@)
}

/// The decimal digit for `d`, which is below ten.
pub open spec fn digit(d: nat) -> char {
    if d == 0 {
        '0'
    } else if d == 1 {
        '1'
    } else if d == 2 {
        '2'
    } else if d == 3 {
        '3'
    } else if d == 4 {
        '4'
    } else if d == 5 {
        '5'
    } else if d == 6 {
        '6'
    } else if d == 7 {
        '7'
    } else if d == 8 {
        '8'
    } else {
        '9'
    }
}

/// The decimal representation of `n`, without sign or leading zeros.
pub open spec fn decimal(n: nat) -> Seq<char>
    decreases n,
{
    if n < 10 {
        seq![digit(n)]
    } else {
        decimal(n / 10).push(digit(n % 10))
    }
}

/// What bytesize prints for a byte count in decimal units ("512 B", "1.5 KB").
pub uninterp spec fn byte_size_text(bytes: u64) -> Seq<char>;

/// The one-character string of decimal digit `d`.
fn digit_text(d: u64) -> (r: &'static str)
    requires
        d < 10,
    ensures
        r@ == seq![digit(d as nat)],
{
    proof {
        reveal_strlit("0");
        reveal_strlit("1");
        reveal_strlit("2");
        reveal_strlit("3");
        reveal_strlit("4");
        reveal_strlit("5");
        reveal_strlit("6");
        reveal_strlit("7");
        reveal_strlit("8");
        reveal_strlit("9");
    }
    if d == 0 {
        "0"
    } else if d == 1 {
        "1"
    } else if d == 2 {
        "2"
    } else if d == 3 {
        "3"
    } else if d == 4 {
        "4"
    } else if d == 5 {
        "5"
    } else if d == 6 {
        "6"
    } else if d == 7 {
        "7"
    } else if d == 8 {
        "8"
    } else {
        "9"
    }
}

/// The decimal digits of `n`.
pub fn u64_text(n: u64) -> (r: String)
    ensures
        r@ == decimal(n as nat),
    decreases n,
{
    if n < 10 {
        digit_text(n).to_owned()
    } else {
        let mut r = u64_text(n / 10);
        r.append(digit_text(n % 10));
        r
    }
}

/// Relies on bytesize's `Display` for `ByteSize`: a function of the byte count,
/// which below one kilobyte is the count followed by " B"; it writes only
/// digits, a point, a space and unit letters, so no escape character.
#[verifier::external_body]
pub(crate) fn byte_size(bytes: u64) -> (r: String)
    ensures
        r@ == byte_size_text(bytes),
        bytes < 1000 ==> r@ == decimal(bytes as nat) + seq![' ', 'B'],
        forall|i: int| 0 <= i < r@.len() ==> r@[i] != '\x1b',
{
    bytesize::ByteSize::b(bytes).to_string()
}

/// Number of characters of `s`.
pub fn text_width(s: &str) -> (r: usize)
    ensures
        r == s@.len(),
{
    s.unicode_len()
}

/// `s` padded on the right with `fill_char` (a one-character string) to
/// `width` characters.
pub fn pad_with(s: &str, width: usize, fill_char: &str) -> (r: String)
    requires
        fill_char@.len() == 1,
    ensures
        r@ == pad_to(s@, width as int, fill_char@[0]),
{
    let mut r = s.to_owned();
    let mut n = s.unicode_len();
    while n < width
        invariant
            fill_char@.len() == 1,
            s@.len() <= n,
            n <= width || n == s@.len(),
            r@ == s@ + fill(n - s@.len(), fill_char@[0]),
        decreases width - n,
    {
        r.append(fill_char);
        n = n + 1;
        assert(r@ =~= s@ + fill(n - s@.len(), fill_char@[0]));
    }
    assert(r@ =~= pad_to(s@, width as int, fill_char@[0]));
    r
}

/// `s` padded on the right with spaces to `width` characters.
pub fn pad(s: &str, width: usize) -> (r: String)
    ensures
        r@ == pad_to(s@, width as int, ' '),
{
    let space = " ";
    proof {
        reveal_strlit(" ");
    }
    pad_with(s, width, space)
}

/// The strings joined with `sep` between consecutive strings.
pub fn join_with(pieces: &Vec<String>, sep: &str) -> (r: String)
    ensures
        r@ == join(views(pieces@), sep@),
{
    let mut r = String::new();
    let mut i: usize = 0;
    while i < pieces.len()
        invariant
            i <= pieces.len(),
            r@ == join(views(pieces@).take(i as int), sep@),
        decreases pieces.len() - i,
    {
        let ghost before = views(pieces@).take(i as int);
        if i > 0 {
            r.append(sep);
        }
        r.append(pieces[i].as_str());
        i = i + 1;
        proof {
            let now = views(pieces@).take(i as int);
            assert(now.drop_last() =~= before);
            if i == 1 {
                assert(r@ =~= now[0]);
            }
        }
    }
    assert(views(pieces@).take(i as int) =~= views(pieces@));
    r
}

/// The characters of `s`, in order.
pub fn char_vec(s: &str) -> (r: Vec<char>)
    ensures
        r@ == s@,
{
    broadcast use vstd::string::group_string_axioms;

    let mut it = s.chars();
    let mut v: Vec<char> = Vec::new();
    loop
        invariant
            v@ + it.remaining() == s@,
            it.decrease() is Some,
        ensures
            v@ == s@,
        decreases it.decrease()->0,
    {
        match it.next() {
            Some(c) => {
                v.push(c);
            },
            None => {
                assert(v@ =~= s@);
                break ;
            },
        }
    }
    v
}

/// `p` is a prefix of `s`.
pub open spec fn is_prefix(p: Seq<char>, s: Seq<char>) -> bool {
    p.len() <= s.len() && s.take(p.len() as int) == p
}

/// `sep` occurs in `s` at position `i`.
pub open spec fn occurs_at(s: Seq<char>, sep: Seq<char>, i: int) -> bool {
    0 <= i && i + sep.len() <= s.len() && s.subrange(i, i + sep.len()) == sep
}

/// Position of the first occurrence of `sep` in `s` at or after `i`, or -1.
pub open spec fn find_from(s: Seq<char>, sep: Seq<char>, i: int) -> int
    decreases s.len() + 1 - i,
{
    if i < 0 || i + sep.len() > s.len() {
        -1
    } else if occurs_at(s, sep, i) {
        i
    } else {
        find_from(s, sep, i + 1)
    }
}

/// The pieces of `s` from `start` on between non-overlapping occurrences of
/// `sep`, searched from left to right.
pub open spec fn split_from(s: Seq<char>, sep: Seq<char>, start: int) -> Seq<Seq<char>>
    decreases s.len() - start,
{
    let k = find_from(s, sep, start);
    if sep.len() == 0 || start < 0 || start > s.len() || k < start || k + sep.len() > s.len() {
        seq![s.subrange(start, s.len() as int)]
    } else {
        seq![s.subrange(start, k)] + split_from(s, sep, k + sep.len())
    }
}

/// The pieces of `s` between non-overlapping occurrences of `sep`.
pub open spec fn split_on(s: Seq<char>, sep: Seq<char>) -> Seq<Seq<char>> {
    split_from(s, sep, 0)
}

/// Whether `sep` occurs in `chars` at position `i`.
fn matches_at(chars: &Vec<char>, sep: &Vec<char>, i: usize) -> (r: bool)
    ensures
        r == occurs_at(chars@, sep@, i as int),
{
    if i > chars.len() || sep.len() > chars.len() - i {
        return false;
    }
    let mut j: usize = 0;
    while j < sep.len()
        invariant
            j <= sep@.len(),
            i + sep@.len() <= chars@.len(),
            i + sep@.len() <= chars.len(),
            forall|k: int| 0 <= k < j ==> chars@[i + k] == sep@[k],
        decreases sep@.len() - j,
    {
        if chars[i + j] != sep[j] {
            assert(chars@.subrange(i as int, i + sep@.len())[j as int] != sep@[j as int]);
            return false;
        }
        j = j + 1;
    }
    assert(chars@.subrange(i as int, i + sep@.len()) =~= sep@);
    true
}

/// A new string holding characters `from` to `to` of `s`.
pub(crate) fn slice_text(s: &str, from: usize, to: usize) -> (r: String)
    requires
        from <= to <= s@.len(),
    ensures
        r@ == s@.subrange(from as int, to as int),
{
    s.substring_char(from, to).to_owned()
}

proof fn lemma_find_from_skips(s: Seq<char>, sep: Seq<char>, i: int)
    requires
        0 <= i,
        i + sep.len() <= s.len(),
        !occurs_at(s, sep, i),
    ensures
        find_from(s, sep, i) == find_from(s, sep, i + 1),
{
}

proof fn lemma_find_from_at_least(s: Seq<char>, sep: Seq<char>, i: int)
    ensures
        find_from(s, sep, i) == -1 || find_from(s, sep, i) >= i,
    decreases s.len() + 1 - i,
{
    if !(i < 0 || i + sep.len() > s.len()) && !occurs_at(s, sep, i) {
        lemma_find_from_at_least(s, sep, i + 1);
    }
}

/// Splits `s` at every occurrence of `sep`, searching from left to right.
pub fn split_by(s: &str, sep: &str) -> (r: Vec<String>)
    requires
        sep@.len() > 0,
    ensures
        views(r@) == split_on(s@, sep@),
{
    let chars = char_vec(s);
    let pat = char_vec(sep);
    let n = chars.len();
    let m = pat.len();
    let mut out: Vec<String> = Vec::new();
    let mut start: usize = 0;
    let mut i: usize = 0;
    while i < n && m <= n - i
        invariant
            chars@ == s@,
            pat@ == sep@,
            n == s@.len(),
            m == sep@.len(),
            m > 0,
            start <= i <= n,
            find_from(s@, sep@, start as int) == find_from(s@, sep@, i as int),
            views(out@) + split_from(s@, sep@, start as int) == split_on(s@, sep@),
        decreases n - i,
    {
        if matches_at(&chars, &pat, i) {
            let piece = slice_text(s, start, i);
            proof {
                lemma_find_from_at_least(s@, sep@, start as int);
                assert(split_from(s@, sep@, start as int) == seq![piece@] + split_from(
                    s@,
                    sep@,
                    i + m,
                ));
                assert(views(out@.push(piece)) =~= views(out@) + seq![piece@]);
                assert(views(out@) + seq![piece@] + split_from(s@, sep@, i + m) =~= views(out@)
                    + split_from(s@, sep@, start as int));
            }
            out.push(piece);
            i = i + m;
            start = i;
        } else {
            proof {
                lemma_find_from_skips(s@, sep@, i as int);
            }
            i = i + 1;
        }
    }
    let last = slice_text(s, start, n);
    proof {
        assert(find_from(s@, sep@, i as int) == -1);
        assert(split_from(s@, sep@, start as int) == seq![last@]);
        assert(views(out@.push(last)) =~= views(out@) + seq![last@]);
    }
    out.push(last);
    out
}

/// `s` without the prefix `p`, or nothing if `s` does not start with `p`.
pub fn strip_prefix(s: &str, p: &str) -> (r: Option<String>)
    ensures
        r is Some <==> is_prefix(p@, s@),
        r matches Some(rest) ==> rest@ == s@.skip(p@.len() as int),
{
    let chars = char_vec(s);
    let pat = char_vec(p);
    if matches_at(&chars, &pat, 0) {
        proof {
            assert(s@.take(p@.len() as int) =~= s@.subrange(0, p@.len() as int));
        }
        let rest = slice_text(s, pat.len(), chars.len());
        proof {
            assert(rest@ =~= s@.skip(p@.len() as int));
        }
        Some(rest)
    } else {
        proof {
            if is_prefix(p@, s@) {
                assert(s@.take(p@.len() as int) =~= s@.subrange(0, p@.len() as int));
            }
        }
        None
    }
}

/// `p` occurs somewhere in `s`.
pub open spec fn contains_seq(s: Seq<char>, p: Seq<char>) -> bool {
    exists|i: int| occurs_at(s, p, i)
}

/// Whether `p` occurs anywhere in `s`.
pub fn contains_text(s: &str, p: &str) -> (r: bool)
    ensures
        r == contains_seq(s@, p@),
{
    let chars = char_vec(s);
    let pat = char_vec(p);
    if pat.len() > chars.len() {
        return false;
    }
    let last = chars.len() - pat.len();
    let mut i: usize = 0;
    loop
        invariant
            chars@ == s@,
            pat@ == p@,
            last == chars@.len() - pat@.len(),
            i <= last,
            forall|k: int| 0 <= k < i ==> !occurs_at(s@, p@, k),
        ensures
            forall|k: int| 0 <= k <= last ==> !occurs_at(s@, p@, k),
        decreases last - i,
    {
        if matches_at(&chars, &pat, i) {
            return true;
        }
        if i == last {
            break ;
        }
        i = i + 1;
    }
    assert forall|k: int| !occurs_at(s@, p@, k) by {
        if 0 <= k < i {
        }
    }
    false
}

/// The value of a decimal digit character.
pub open spec fn digit_value(c: char) -> nat {
    (c as u32 - 48) as nat
}

/// A decimal digit character.
pub open spec fn is_digit(c: char) -> bool {
    48 <= c as u32 && c as u32 <= 57
}

/// The number that a run of decimal digits denotes.
pub open spec fn digits_value(s: Seq<char>) -> nat
    decreases s.len(),
{
    if s.len() == 0 {
        0
    } else {
        digits_value(s.drop_last()) * 10 + digit_value(s.last())
    }
}

/// The digits of an unsigned decimal numeral, after an optional `+`.
pub open spec fn numeral_digits(s: Seq<char>) -> Seq<char> {
    if s.len() > 0 && s[0] == '+' {
        s.skip(1)
    } else {
        s
    }
}

/// What `s` denotes as a `u64` numeral: an optional `+`, at least one decimal
/// digit and nothing else, of a value that fits.
pub open spec fn u64_numeral(s: Seq<char>) -> Option<u64> {
    let d = numeral_digits(s);
    if d.len() > 0 && (forall|i: int| 0 <= i < d.len() ==> is_digit(#[trigger] d[i]))
        && digits_value(d) <= u64::MAX {
        Some(digits_value(d) as u64)
    } else {
        None
    }
}

proof fn lemma_digits_value_grows(d: Seq<char>, i: int)
    requires
        0 <= i <= d.len(),
    ensures
        digits_value(d.take(i)) <= digits_value(d),
    decreases d.len() - i,
{
    if i < d.len() {
        lemma_digits_value_grows(d, i + 1);
        assert(d.take(i + 1).drop_last() =~= d.take(i));
    } else {
        assert(d.take(i) =~= d);
    }
}

/// Reads `s` as an unsigned decimal `u64`.
pub fn parse_u64(s: &str) -> (r: Option<u64>)
    ensures
        r == u64_numeral(s@),
{
    let chars = char_vec(s);
    let ghost d = numeral_digits(s@);
    let mut i: usize = 0;
    if chars.len() > 0 && chars[0] == '+' {
        i = 1;
    }
    let first = i;
    assert(d =~= s@.skip(first as int));
    if i >= chars.len() {
        return None;
    }
    let mut value: u64 = 0;
    while i < chars.len()
        invariant
            chars@ == s@,
            d == s@.skip(first as int),
            d == numeral_digits(s@),
            first <= i <= chars@.len(),
            first < chars@.len(),
            forall|k: int| 0 <= k < i - first ==> is_digit(#[trigger] d[k]),
            value as nat == digits_value(d.take(i - first)),
        decreases chars@.len() - i,
    {
        let c = chars[i] as u32;
        if c < 48 || c > 57 {
            assert(d[i - first] == s@[i as int]);
            assert(!is_digit(d[i - first]));
            assert(!(forall|k: int| 0 <= k < d.len() ==> is_digit(#[trigger] d[k])));
            return None;
        }
        let v = (c - 48) as u64;
        assert(d.take(i - first + 1).drop_last() =~= d.take(i - first));
        if value > (u64::MAX - v) / 10 {
            proof {
                lemma_digits_value_grows(d, i - first + 1);
                assert(d[i - first] == s@[i as int]);
                assert(d.take(i - first + 1).last() == d[i - first]);
                assert(digit_value(d[i - first]) == v);
                assert(digits_value(d.take(i - first + 1)) == value * 10 + v);
                assert((value as int) * 10 + v > u64::MAX) by (nonlinear_arith)
                    requires
                        value > (u64::MAX - v) / 10,
                        v <= 9,
                ;
            }
            return None;
        }
        assert(value * 10 + v <= u64::MAX) by (nonlinear_arith)
            requires
                value <= (u64::MAX - v) / 10,
                v <= 9,
        ;
        proof {
            assert(d[i - first] == s@[i as int]);
            assert(d.take(i - first + 1).last() == d[i - first]);
        }
        value = value * 10 + v;
        i = i + 1;
    }
    assert(d.take(i - first) =~= d);
    Some(value)
}

/// Whether `a` and `b` hold the same characters.
pub fn same_text(a: &str, b: &str) -> (r: bool)
    ensures
        r == (a@ == b@),
{
    let x = char_vec(a);
    let y = char_vec(b);
    if x.len() != y.len() {
        return false;
    }
    let mut i: usize = 0;
    while i < x.len()
        invariant
            x@ == a@,
            y@ == b@,
            x@.len() == y@.len(),
            i <= x@.len(),
            forall|k: int| 0 <= k < i ==> x@[k] == y@[k],
        decreases x@.len() - i,
    {
        if x[i] != y[i] {
            return false;
        }
        i = i + 1;
    }
    assert(x@ =~= y@);
    true
}

/// `a` comes no later than `b` in the order of code points, character by character.
pub open spec fn text_le(a: Seq<char>, b: Seq<char>) -> bool
    decreases a.len(),
{
    if a.len() == 0 {
        true
    } else if b.len() == 0 {
        false
    } else if (a[0] as u32) < (b[0] as u32) {
        true
    } else if a[0] == b[0] {
        text_le(a.skip(1), b.skip(1))
    } else {
        false
    }
}

/// Relies on `slice::sort` for `String`s: the same strings, in ascending order
/// of `String`'s `Ord`, which compares the UTF-8 bytes and so orders by code points.
#[verifier::external_body]
pub(crate) fn sort_texts(v: &mut Vec<String>)
    ensures
        final(v)@.to_multiset() == old(v)@.to_multiset(),
        forall|i: int, j: int|
            0 <= i < j < final(v)@.len() ==> text_le(final(v)@[i]@, final(v)@[j]@),
{
    v.sort();
}

} // verus!
