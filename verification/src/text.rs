//! Character-level string helpers with specifications over `Seq<char>`.
//!
//! Every helper here states its result as a function of the views of its
//! arguments, so that the parsers built on top of them can be specified
//! without reference to the byte layout of UTF-8 strings.

use vstd::prelude::*;

verus! {

// ---------------------------------------------------------------------------
// Specifications
// ---------------------------------------------------------------------------

/// `t` occurs in `s` starting at position `i`.
pub open spec fn occurs_at(s: Seq<char>, t: Seq<char>, i: int) -> bool {
    0 <= i && i + t.len() <= s.len() && s.subrange(i, i + t.len()) == t
}

/// `t` occurs somewhere in `s` (the empty sequence occurs in every sequence).
pub open spec fn contains_seq(s: Seq<char>, t: Seq<char>) -> bool {
    exists|i: int| occurs_at(s, t, i)
}

/// `s` begins with `t`.
pub open spec fn starts_with(s: Seq<char>, t: Seq<char>) -> bool {
    t.len() <= s.len() && s.take(t.len() as int) == t
}

/// `s` ends with `t`.
pub open spec fn ends_with(s: Seq<char>, t: Seq<char>) -> bool {
    t.len() <= s.len() && s.skip(s.len() - t.len()) == t
}

/// Splits `s` at every character satisfying `sep`, keeping empty pieces:
/// `n` separators give `n + 1` pieces.
pub open spec fn split_by(s: Seq<char>, sep: spec_fn(char) -> bool) -> Seq<Seq<char>>
    decreases s.len(),
{
    if s.len() == 0 {
        seq![Seq::<char>::empty()]
    } else {
        let rest = split_by(s.drop_first(), sep);
        if sep(s[0]) {
            seq![Seq::<char>::empty()] + rest
        } else {
            rest.update(0, seq![s[0]] + rest[0])
        }
    }
}

/// Separator predicate for a set of characters given as a sequence.
pub open spec fn one_of(seps: Seq<char>) -> spec_fn(char) -> bool {
    |c: char| seps.contains(c)
}

/// The pieces of `s` separated by the single character `c`.
pub open spec fn split_char(s: Seq<char>, c: char) -> Seq<Seq<char>> {
    split_by(s, one_of(seq![c]))
}

/// The pieces of `s` separated by either kind of quote character.
pub open spec fn split_quotes(s: Seq<char>) -> Seq<Seq<char>> {
    split_by(s, one_of(seq!['\'', '"']))
}

/// Whether a character has the Unicode `White_Space` property (what
/// `char::is_whitespace` reports): tab through carriage return, space,
/// next line, no-break space, Ogham space mark, the spaces from en quad to
/// hair space, line and paragraph separators, narrow no-break space,
/// medium mathematical space and ideographic space.
pub open spec fn char_is_whitespace(c: char) -> bool {
    let n = c as u32;
    ||| 0x09 <= n <= 0x0D
    ||| n == 0x20
    ||| n == 0x85
    ||| n == 0xA0
    ||| n == 0x1680
    ||| 0x2000 <= n <= 0x200A
    ||| n == 0x2028
    ||| n == 0x2029
    ||| n == 0x202F
    ||| n == 0x205F
    ||| n == 0x3000
}

/// Separator predicate for Unicode whitespace.
pub open spec fn whitespace() -> spec_fn(char) -> bool {
    |c: char| char_is_whitespace(c)
}

/// Keeps the non-empty sequences, in order.
pub open spec fn non_empty_pieces(p: Seq<Seq<char>>) -> Seq<Seq<char>> {
    p.filter(|x: Seq<char>| x.len() > 0)
}

/// The whitespace-separated words of `s` (what `str::split_whitespace` yields).
pub open spec fn words(s: Seq<char>) -> Seq<Seq<char>> {
    non_empty_pieces(split_by(s, whitespace()))
}

/// Number of leading characters of `s` that satisfy `p`.
pub open spec fn leading_count(s: Seq<char>, p: spec_fn(char) -> bool) -> nat
    decreases s.len(),
{
    if s.len() > 0 && p(s[0]) {
        1 + leading_count(s.drop_first(), p)
    } else {
        0
    }
}

/// Number of trailing characters of `s` that satisfy `p`.
pub open spec fn trailing_count(s: Seq<char>, p: spec_fn(char) -> bool) -> nat
    decreases s.len(),
{
    if s.len() > 0 && p(s.last()) {
        1 + trailing_count(s.drop_last(), p)
    } else {
        0
    }
}

/// `s` without the leading characters that satisfy `p`.
pub open spec fn trim_start_by(s: Seq<char>, p: spec_fn(char) -> bool) -> Seq<char> {
    s.skip(leading_count(s, p) as int)
}

/// `s` without the trailing characters that satisfy `p`.
pub open spec fn trim_end_by(s: Seq<char>, p: spec_fn(char) -> bool) -> Seq<char> {
    s.take(s.len() - trailing_count(s, p))
}

/// `s` without leading and trailing characters that satisfy `p`.
pub open spec fn trim_by(s: Seq<char>, p: spec_fn(char) -> bool) -> Seq<char> {
    trim_end_by(trim_start_by(s, p), p)
}

/// `s` without leading and trailing whitespace (what `str::trim` yields).
pub open spec fn trim(s: Seq<char>) -> Seq<char> {
    trim_by(s, whitespace())
}

/// Removes one trailing carriage return, if present.
pub open spec fn strip_cr(line: Seq<char>) -> Seq<char> {
    if line.len() > 0 && line.last() == '\r' {
        line.drop_last()
    } else {
        line
    }
}

/// Applies `strip_cr` to every piece but the last one.
pub open spec fn strip_cr_but_last(p: Seq<Seq<char>>) -> Seq<Seq<char>> {
    Seq::new(p.len(), |i: int| if i + 1 < p.len() { strip_cr(p[i]) } else { p[i] })
}

/// The lines of `s` as `str::lines` yields them: pieces between `'\n'`, a
/// `'\r'` before a `'\n'` removed, no final empty line after a trailing `'\n'`.
pub open spec fn lines(s: Seq<char>) -> Seq<Seq<char>> {
    if s.len() == 0 {
        Seq::empty()
    } else {
        let p = strip_cr_but_last(split_char(s, '\n'));
        if s.last() == '\n' {
            // the last piece is empty; every other piece was followed by '\n'
            p.drop_last()
        } else {
            p
        }
    }
}

/// Decimal digits of a natural number (no sign, no leading zeros).
pub open spec fn decimal(n: nat) -> Seq<char>
    decreases n,
{
    if n < 10 {
        seq![digit_char(n)]
    } else {
        decimal(n / 10) + seq![digit_char(n % 10)]
    }
}

/// The character of a decimal digit.
pub open spec fn digit_char(d: nat) -> char {
    if d == 0 { '0' }
    else if d == 1 { '1' }
    else if d == 2 { '2' }
    else if d == 3 { '3' }
    else if d == 4 { '4' }
    else if d == 5 { '5' }
    else if d == 6 { '6' }
    else if d == 7 { '7' }
    else if d == 8 { '8' }
    else { '9' }
}

/// Replaces every occurrence of `from` by `to`.
pub open spec fn replace_char(s: Seq<char>, from: char, to: char) -> Seq<char> {
    Seq::new(s.len(), |i: int| if s[i] == from { to } else { s[i] })
}

/// Index of the last occurrence of `c` in `s`, if any.
pub open spec fn last_index_of(s: Seq<char>, c: char) -> Option<int> {
    if exists|i: int| 0 <= i < s.len() && s[i] == c {
        Some(choose|i: int| 0 <= i < s.len() && s[i] == c && forall|j: int| i < j < s.len() ==> s[j] != c)
    } else {
        None
    }
}

/// The view of an optional string.
pub open spec fn opt_view(o: Option<String>) -> Option<Seq<char>> {
    match o {
        Some(s) => Some(s@),
        None => None,
    }
}

/// The present values of a sequence of options, in order.
pub open spec fn somes<A>(s: Seq<Option<A>>) -> Seq<A>
    decreases s.len(),
{
    if s.len() == 0 {
        Seq::empty()
    } else {
        match s.last() {
            Some(a) => somes(s.drop_last()).push(a),
            None => somes(s.drop_last()),
        }
    }
}

/// Every present value of the list is kept by `somes`.
pub proof fn lemma_somes_contains<A>(s: Seq<Option<A>>, k: int, a: A)
    requires
        0 <= k < s.len(),
        s[k] == Some(a),
    ensures
        somes(s).contains(a),
    decreases s.len(),
{
    if k == s.len() - 1 {
        assert(somes(s)[somes(s.drop_last()).len() as int] == a);
    } else {
        assert(s.drop_last()[k] == s[k]);
        lemma_somes_contains(s.drop_last(), k, a);
        let m = choose|m: int| 0 <= m < somes(s.drop_last()).len() && somes(s.drop_last())[m] == a;
        match s.last() {
            Some(b) => assert(somes(s)[m] == a),
            None => {},
        }
    }
}

/// The first of `candidates` that occurs in `s`, if any.
pub open spec fn first_contained(candidates: Seq<Seq<char>>, s: Seq<char>) -> Option<Seq<char>>
    decreases candidates.len(),
{
    if candidates.len() == 0 {
        None
    } else if contains_seq(s, candidates[0]) {
        Some(candidates[0])
    } else {
        first_contained(candidates.drop_first(), s)
    }
}

// ---------------------------------------------------------------------------
// Trusted items for std functions that vstd does not specify
// ---------------------------------------------------------------------------

/// Calls `String::push`: appends one character.
#[verifier::external_body]
fn push_char(s: &mut String, c: char)
    ensures
        final(s)@ == old(s)@.push(c),
{
    s.push(c);
}

/// Calls `char::is_whitespace`, which reports the Unicode `White_Space`
/// property.
#[verifier::external_body]
pub(crate) fn is_whitespace(c: char) -> (b: bool)
    ensures
        b == char_is_whitespace(c),
{
    c.is_whitespace()
}

/// Calls `str::to_lowercase`; Unicode lowercasing is a function of the
/// string alone and is named, not spelled out.
#[verifier::external_body]
pub(crate) fn to_lowercase(s: &str) -> (r: String)
    ensures
        r@ == lowercase(s@),
{
    s.to_lowercase()
}

/// What `str::to_lowercase` returns for a string.
pub uninterp spec fn lowercase(s: Seq<char>) -> Seq<char>;

/// The character of a decimal digit.
fn digit_exec(d: u64) -> (c: char)
    requires
        d < 10,
    ensures
        c == digit_char(d as nat),
{
    if d == 0 {
        '0'
    } else if d == 1 {
        '1'
    } else if d == 2 {
        '2'
    } else if d == 3 {
        '3'
    } else if d == 4 {
        '4'
    } else if d == 5 {
        '5'
    } else if d == 6 {
        '6'
    } else if d == 7 {
        '7'
    } else if d == 8 {
        '8'
    } else {
        '9'
    }
}

/// The decimal form of `n`, most significant digit first.
fn decimal_string(n: u64) -> (r: String)
    ensures
        r@ == decimal(n as nat),
    decreases n,
{
    if n < 10 {
        let v = vec![digit_exec(n)];
        let r = string_of(v.as_slice());
        assert(r@ =~= decimal(n as nat));
        r
    } else {
        let mut r = decimal_string(n / 10);
        push_char(&mut r, digit_exec(n % 10));
        assert(r@ =~= decimal(n as nat));
        r
    }
}

/// The decimal form of `n`, as `to_string` writes it.
pub(crate) fn usize_to_string(n: usize) -> (r: String)
    ensures
        r@ == decimal(n as nat),
{
    decimal_string(n as u64)
}

/// The decimal form of an integer, with `-` in front when negative.
pub open spec fn signed_decimal(n: int) -> Seq<char> {
    if n < 0 {
        "-"@ + decimal((-n) as nat)
    } else {
        decimal(n as nat)
    }
}

/// The decimal form of `n`, with `-` in front when negative, as
/// `to_string` writes it.
pub(crate) fn i64_to_string(n: i64) -> (r: String)
    ensures
        r@ == signed_decimal(n as int),
{
    if n < 0 {
        let m: u64 = if n == i64::MIN {
            9223372036854775808u64
        } else {
            (0 - n) as u64
        };
        let digits = decimal_string(m);
        proof {
            reveal_strlit("-");
        }
        concat2("-", digits.as_str())
    } else {
        decimal_string(n as u64)
    }
}

// ---------------------------------------------------------------------------
// Conversions
// ---------------------------------------------------------------------------

/// Returns the characters of `s` in order.
pub fn chars_of(s: &str) -> (v: Vec<char>)
    ensures
        v@ == s@,
{
    let mut v: Vec<char> = Vec::new();
    for c in it: s.chars()
        invariant
            v@ == it.seq().take(it.index() as int),
    {
        v.push(c);
    }
    v
}

/// Builds a string from characters.
pub fn string_of(v: &[char]) -> (s: String)
    ensures
        s@ == v@,
{
    let mut s = String::new();
    let n = v.len();
    for i in 0..n
        invariant
            n == v@.len(),
            s@ == v@.take(i as int),
    {
        push_char(&mut s, v[i]);
        assert(v@.take(i + 1) == v@.take(i as int).push(v@[i as int]));
    }
    assert(v@.take(n as int) == v@);
    s
}

/// Builds a string from the characters `v[from..to]`.
pub fn string_of_range(v: &[char], from: usize, to: usize) -> (s: String)
    requires
        from <= to <= v@.len(),
    ensures
        s@ == v@.subrange(from as int, to as int),
{
    let mut s = String::new();
    let mut i = from;
    while i < to
        invariant
            from <= i <= to <= v@.len(),
            s@ == v@.subrange(from as int, i as int),
        decreases to - i,
    {
        push_char(&mut s, v[i]);
        assert(v@.subrange(from as int, i + 1) == v@.subrange(from as int, i as int).push(
            v@[i as int],
        ));
        i = i + 1;
    }
    s
}

/// A copy of `s` as an owned string.
pub fn own(s: &str) -> (r: String)
    ensures
        r@ == s@,
{
    s.to_owned()
}

/// Whether a string has no characters.
pub fn is_empty_str(s: &str) -> (b: bool)
    ensures
        b == (s@.len() == 0),
{
    let r = str_eq(s, "");
    proof {
        reveal_strlit("");
        assert(s@.len() == 0 ==> s@ =~= ""@);
    }
    r
}

/// `s` right-aligned in a field of `width` characters: spaces in front
/// when it is shorter.
pub open spec fn right_aligned(s: Seq<char>, width: nat) -> Seq<char> {
    if s.len() < width {
        Seq::new((width - s.len()) as nat, |i: int| ' ') + s
    } else {
        s
    }
}

/// Right-aligns `s` in a field of `width` characters.
pub fn pad_left(s: &str, width: usize) -> (r: String)
    ensures
        r@ == right_aligned(s@, width as nat),
{
    let cs = chars_of(s);
    if cs.len() >= width {
        return own(s);
    }
    let pad = width - cs.len();
    let mut v: Vec<char> = Vec::new();
    for i in 0..pad
        invariant
            v@ == Seq::new(i as nat, |j: int| ' '),
    {
        v.push(' ');
        assert(v@ =~= Seq::new((i + 1) as nat, |j: int| ' '));
    }
    let ghost spaces = v@;
    let n = cs.len();
    for i in 0..n
        invariant
            n == cs@.len(),
            v@ == spaces + cs@.take(i as int),
    {
        v.push(cs[i]);
        assert(v@ =~= spaces + cs@.take(i + 1));
    }
    assert(cs@.take(n as int) =~= cs@);
    string_of(v.as_slice())
}

/// Concatenation of two strings.
pub fn concat2(a: &str, b: &str) -> (r: String)
    ensures
        r@ == a@ + b@,
{
    let mut r = a.to_owned();
    r.append(b);
    r
}

/// Concatenation of three strings.
pub fn concat3(a: &str, b: &str, c: &str) -> (r: String)
    ensures
        r@ == a@ + b@ + c@,
{
    let mut r = a.to_owned();
    r.append(b);
    r.append(c);
    r
}

// ---------------------------------------------------------------------------
// Comparisons and searches
// ---------------------------------------------------------------------------

/// Whether two character sequences are equal.
pub fn chars_eq(a: &[char], b: &[char]) -> (r: bool)
    ensures
        r == (a@ == b@),
{
    if a.len() != b.len() {
        return false;
    }
    let n = a.len();
    for i in 0..n
        invariant
            n == a@.len() == b@.len(),
            forall|j: int| 0 <= j < i ==> a@[j] == b@[j],
    {
        if a[i] != b[i] {
            return false;
        }
    }
    assert(a@ =~= b@);
    true
}

/// Whether two strings are equal.
pub fn str_eq(a: &str, b: &str) -> (r: bool)
    ensures
        r == (a@ == b@),
{
    let ca = chars_of(a);
    let cb = chars_of(b);
    chars_eq(ca.as_slice(), cb.as_slice())
}

/// Whether `t` occurs in `s` at position `i`.
pub fn occurs_at_exec(s: &[char], t: &[char], i: usize) -> (r: bool)
    ensures
        r == occurs_at(s@, t@, i as int),
{
    if i > s.len() || t.len() > s.len() - i {
        return false;
    }
    let n = t.len();
    for k in 0..n
        invariant
            n == t@.len(),
            i + n <= s.len(),
            forall|j: int| 0 <= j < k ==> s@[i + j] == t@[j],
    {
        if s[i + k] != t[k] {
            assert(s@.subrange(i as int, i + n)[k as int] != t@[k as int]);
            return false;
        }
    }
    assert(s@.subrange(i as int, i + n) =~= t@);
    true
}

/// Whether `t` occurs somewhere in `s`.
pub fn contains_chars(s: &[char], t: &[char]) -> (r: bool)
    ensures
        r == contains_seq(s@, t@),
{
    if t.len() > s.len() {
        return false;
    }
    let last = s.len() - t.len();
    let mut i: usize = 0;
    loop
        invariant
            last + t@.len() == s@.len(),
            i <= last,
            forall|j: int| 0 <= j < i ==> !occurs_at(s@, t@, j),
        ensures
            forall|j: int| 0 <= j <= last ==> !occurs_at(s@, t@, j),
        decreases last - i,
    {
        if occurs_at_exec(s, t, i) {
            return true;
        }
        if i == last {
            break;
        }
        i = i + 1;
    }
    assert forall|j: int| !occurs_at(s@, t@, j) by {
        if 0 <= j && j + t@.len() <= s@.len() {
            assert(j <= last);
        }
    }
    false
}

/// Whether `t` occurs somewhere in `s`.
pub fn contains_str(s: &str, t: &str) -> (r: bool)
    ensures
        r == contains_seq(s@, t@),
{
    let cs = chars_of(s);
    let ct = chars_of(t);
    contains_chars(cs.as_slice(), ct.as_slice())
}

/// Whether the character `c` occurs in `s`.
pub fn contains_char(s: &[char], c: char) -> (r: bool)
    ensures
        r == s@.contains(c),
{
    let n = s.len();
    for i in 0..n
        invariant
            n == s@.len(),
            forall|j: int| 0 <= j < i ==> s@[j] != c,
    {
        if s[i] == c {
            return true;
        }
    }
    false
}

/// Whether `s` begins with `t`.
pub fn starts_with_chars(s: &[char], t: &[char]) -> (r: bool)
    ensures
        r == starts_with(s@, t@),
{
    let r = occurs_at_exec(s, t, 0);
    assert(s@.subrange(0, t@.len() as int) == s@.take(t@.len() as int));
    r
}

/// Whether `s` begins with `t`.
pub fn starts_with_str(s: &str, t: &str) -> (r: bool)
    ensures
        r == starts_with(s@, t@),
{
    let cs = chars_of(s);
    let ct = chars_of(t);
    starts_with_chars(cs.as_slice(), ct.as_slice())
}

/// Whether `s` ends with `t`.
pub fn ends_with_chars(s: &[char], t: &[char]) -> (r: bool)
    ensures
        r == ends_with(s@, t@),
{
    if t.len() > s.len() {
        return false;
    }
    let r = occurs_at_exec(s, t, s.len() - t.len());
    assert(s@.subrange(s@.len() - t@.len(), s@.len() as int) == s@.skip(
        s@.len() - t@.len(),
    ));
    r
}

/// Whether `s` ends with `t`.
pub fn ends_with_str(s: &str, t: &str) -> (r: bool)
    ensures
        r == ends_with(s@, t@),
{
    let cs = chars_of(s);
    let ct = chars_of(t);
    ends_with_chars(cs.as_slice(), ct.as_slice())
}

/// Index of the last occurrence of `c` in `s`, if any.
pub fn last_index_of_char(s: &[char], c: char) -> (r: Option<usize>)
    ensures
        match r {
            Some(i) => i < s@.len() && s@[i as int] == c && forall|j: int|
                i < j < s@.len() ==> s@[j] != c,
            None => forall|j: int| 0 <= j < s@.len() ==> s@[j] != c,
        },
        r matches Some(i) ==> last_index_of(s@, c) == Some(i as int),
        r is None ==> last_index_of(s@, c) is None,
{
    let mut i = s.len();
    while i > 0
        invariant
            i <= s@.len(),
            forall|j: int| i <= j < s@.len() ==> s@[j] != c,
        decreases i,
    {
        if s[i - 1] == c {
            let k = (i - 1) as usize;
            proof {
                let w = choose|w: int|
                    0 <= w < s@.len() && s@[w] == c && forall|j: int| w < j < s@.len() ==> s@[j] != c;
                assert(0 <= k < s@.len() && s@[k as int] == c && forall|j: int|
                    k < j < s@.len() ==> s@[j] != c);
                if w < k {
                    assert(s@[k as int] != c);
                } else if w > k {
                    assert(s@[w] != c);
                }
            }
            return Some(k);
        }
        i = i - 1;
    }
    None
}

/// Replaces every occurrence of `from` by `to`.
pub fn replace_char_str(s: &str, from: char, to: char) -> (r: String)
    ensures
        r@ == replace_char(s@, from, to),
{
    let cs = chars_of(s);
    let mut out: Vec<char> = Vec::new();
    let n = cs.len();
    for i in 0..n
        invariant
            n == cs@.len(),
            cs@ == s@,
            out@ == replace_char(s@, from, to).take(i as int),
    {
        if cs[i] == from {
            out.push(to);
        } else {
            out.push(cs[i]);
        }
        assert(out@ =~= replace_char(s@, from, to).take(i + 1));
    }
    assert(out@ =~= replace_char(s@, from, to));
    string_of(out.as_slice())
}

// ---------------------------------------------------------------------------
// Splitting
// ---------------------------------------------------------------------------

/// Joins the pieces already produced, the piece being built and the pieces
/// of the remaining input: the remaining input's first piece continues the
/// piece being built.
pub open spec fn resume_split(done: Seq<Seq<char>>, cur: Seq<char>, rest: Seq<Seq<char>>) -> Seq<
    Seq<char>,
> {
    done + seq![cur + rest[0]] + rest.drop_first()
}

proof fn lemma_split_by_nonempty(s: Seq<char>, sep: spec_fn(char) -> bool)
    ensures
        split_by(s, sep).len() >= 1,
    decreases s.len(),
{
    if s.len() > 0 {
        lemma_split_by_nonempty(s.drop_first(), sep);
    }
}

/// A text holding no separator is one piece.
pub proof fn lemma_split_no_separator(s: Seq<char>, sep: spec_fn(char) -> bool)
    requires
        forall|i: int| 0 <= i < s.len() ==> !sep(#[trigger] s[i]),
    ensures
        split_by(s, sep) == seq![s],
    decreases s.len(),
{
    if s.len() > 0 {
        lemma_split_no_separator(s.drop_first(), sep);
        assert(seq![s[0]] + s.drop_first() =~= s);
        assert(split_by(s, sep) =~= seq![s]);
    } else {
        assert(s =~= Seq::<char>::empty());
    }
}

/// A piece without a separator, a separator, and the rest split into the
/// piece followed by the pieces of the rest.
pub proof fn lemma_split_first_piece(a: Seq<char>, m: char, b: Seq<char>, sep: spec_fn(char) -> bool)
    requires
        sep(m),
        forall|i: int| 0 <= i < a.len() ==> !sep(#[trigger] a[i]),
    ensures
        split_by(a + seq![m] + b, sep) == seq![a] + split_by(b, sep),
    decreases a.len(),
{
    let s = a + seq![m] + b;
    if a.len() == 0 {
        assert(s.drop_first() =~= b);
        assert(s[0] == m);
        assert(a =~= Seq::<char>::empty());
    } else {
        let a2 = a.drop_first();
        lemma_split_first_piece(a2, m, b, sep);
        assert(s.drop_first() =~= a2 + seq![m] + b);
        assert(s[0] == a[0]);
        lemma_split_by_nonempty(b, sep);
        assert(seq![a[0]] + a2 =~= a);
        assert(split_by(s, sep) =~= seq![a] + split_by(b, sep));
    }
}

proof fn lemma_split_step(
    s: Seq<char>,
    i: int,
    done: Seq<Seq<char>>,
    cur: Seq<char>,
    sep: spec_fn(char) -> bool,
)
    requires
        0 <= i < s.len(),
    ensures
        sep(s[i]) ==> resume_split(done, cur, split_by(s.skip(i), sep)) == resume_split(
            done.push(cur),
            Seq::empty(),
            split_by(s.skip(i + 1), sep),
        ),
        !sep(s[i]) ==> resume_split(done, cur, split_by(s.skip(i), sep)) == resume_split(
            done,
            cur.push(s[i]),
            split_by(s.skip(i + 1), sep),
        ),
{
    let t = s.skip(i);
    assert(t.drop_first() =~= s.skip(i + 1));
    assert(t[0] == s[i]);
    let r = split_by(s.skip(i + 1), sep);
    lemma_split_by_nonempty(s.skip(i + 1), sep);
    if sep(s[i]) {
        let whole = seq![Seq::<char>::empty()] + r;
        assert(split_by(t, sep) == whole);
        assert(whole[0] == Seq::<char>::empty());
        assert(whole.drop_first() =~= r);
        assert(cur + Seq::<char>::empty() =~= cur);
        assert(resume_split(done, cur, whole) =~= resume_split(
            done.push(cur),
            Seq::empty(),
            r,
        ));
    } else {
        let whole = r.update(0, seq![s[i]] + r[0]);
        assert(split_by(t, sep) == whole);
        assert(cur + whole[0] =~= cur.push(s[i]) + r[0]);
        assert(whole.drop_first() =~= r.drop_first());
    }
}

/// Splits the characters of `s` at every character in `seps`, keeping
/// empty pieces (what `str::split` with a character pattern yields).
pub fn split_at_chars(s: &[char], seps: &[char]) -> (r: Vec<String>)
    ensures
        r@.map_values(|p: String| p@) == split_by(s@, one_of(seps@)),
{
    let ghost sep = one_of(seps@);
    let mut done: Vec<String> = Vec::new();
    let mut start: usize = 0;
    let n = s.len();
    proof {
        lemma_split_by_nonempty(s@, sep);
        let r = split_by(s@, sep);
        assert(s@.skip(0) =~= s@);
        assert(s@.subrange(0, 0) + r[0] =~= r[0]);
        assert(Seq::<Seq<char>>::empty() + seq![r[0]] + r.drop_first() =~= r);
        assert(done@.map_values(|p: String| p@) =~= Seq::<Seq<char>>::empty());
    }
    for i in 0..n
        invariant
            n == s@.len(),
            sep == one_of(seps@),
            start <= i,
            split_by(s@, sep) == resume_split(
                done@.map_values(|p: String| p@),
                s@.subrange(start as int, i as int),
                split_by(s@.skip(i as int), sep),
            ),
    {
        proof {
            lemma_split_step(
                s@,
                i as int,
                done@.map_values(|p: String| p@),
                s@.subrange(start as int, i as int),
                sep,
            );
        }
        if contains_char(seps, s[i]) {
            let piece = string_of_range(s, start, i);
            let ghost old_done = done@;
            done.push(piece);
            assert(done@.map_values(|p: String| p@) =~= old_done.map_values(|p: String| p@).push(
                s@.subrange(start as int, i as int),
            ));
            assert(s@.subrange((i + 1) as int, (i + 1) as int) =~= Seq::<char>::empty());
            start = i + 1;
        } else {
            assert(s@.subrange(start as int, i as int).push(s@[i as int]) =~= s@.subrange(
                start as int,
                i + 1,
            ));
        }
    }
    let last = string_of_range(s, start, n);
    let ghost old_done = done@;
    proof {
        assert(s@.skip(n as int) =~= Seq::<char>::empty());
        let e = split_by(Seq::<char>::empty(), sep);
        assert(e == seq![Seq::<char>::empty()]);
        assert(s@.subrange(start as int, n as int) + e[0] =~= s@.subrange(start as int, n as int));
        assert(e.drop_first() =~= Seq::<Seq<char>>::empty());
    }
    done.push(last);
    assert(done@.map_values(|p: String| p@) =~= old_done.map_values(|p: String| p@).push(
        s@.subrange(start as int, n as int),
    ));
    done
}

/// `str::split` on a single character.
pub fn split_on_char(s: &str, c: char) -> (r: Vec<String>)
    ensures
        r@.map_values(|p: String| p@) == split_char(s@, c),
{
    let cs = chars_of(s);
    let seps = vec![c];
    let r = split_at_chars(cs.as_slice(), seps.as_slice());
    assert(seps@ == seq![c]);
    r
}

/// `str::split` on either quote character.
pub fn split_on_quotes(s: &str) -> (r: Vec<String>)
    ensures
        r@.map_values(|p: String| p@) == split_quotes(s@),
{
    let cs = chars_of(s);
    let seps = vec!['\'', '"'];
    let r = split_at_chars(cs.as_slice(), seps.as_slice());
    assert(seps@ == seq!['\'', '"']);
    r
}

/// Splits at whitespace, keeping empty pieces.
fn split_at_whitespace(s: &[char]) -> (r: Vec<String>)
    ensures
        r@.map_values(|p: String| p@) == split_by(s@, whitespace()),
{
    let ghost sep = whitespace();
    let mut done: Vec<String> = Vec::new();
    let mut start: usize = 0;
    let n = s.len();
    proof {
        lemma_split_by_nonempty(s@, sep);
        let r = split_by(s@, sep);
        assert(s@.skip(0) =~= s@);
        assert(s@.subrange(0, 0) + r[0] =~= r[0]);
        assert(Seq::<Seq<char>>::empty() + seq![r[0]] + r.drop_first() =~= r);
        assert(done@.map_values(|p: String| p@) =~= Seq::<Seq<char>>::empty());
    }
    for i in 0..n
        invariant
            n == s@.len(),
            sep == whitespace(),
            start <= i,
            split_by(s@, sep) == resume_split(
                done@.map_values(|p: String| p@),
                s@.subrange(start as int, i as int),
                split_by(s@.skip(i as int), sep),
            ),
    {
        proof {
            lemma_split_step(
                s@,
                i as int,
                done@.map_values(|p: String| p@),
                s@.subrange(start as int, i as int),
                sep,
            );
        }
        if is_whitespace(s[i]) {
            let piece = string_of_range(s, start, i);
            let ghost old_done = done@;
            done.push(piece);
            assert(done@.map_values(|p: String| p@) =~= old_done.map_values(|p: String| p@).push(
                s@.subrange(start as int, i as int),
            ));
            assert(s@.subrange((i + 1) as int, (i + 1) as int) =~= Seq::<char>::empty());
            start = i + 1;
        } else {
            assert(s@.subrange(start as int, i as int).push(s@[i as int]) =~= s@.subrange(
                start as int,
                i + 1,
            ));
        }
    }
    let last = string_of_range(s, start, n);
    let ghost old_done = done@;
    proof {
        assert(s@.skip(n as int) =~= Seq::<char>::empty());
        let e = split_by(Seq::<char>::empty(), sep);
        assert(e == seq![Seq::<char>::empty()]);
        assert(s@.subrange(start as int, n as int) + e[0] =~= s@.subrange(start as int, n as int));
        assert(e.drop_first() =~= Seq::<Seq<char>>::empty());
    }
    done.push(last);
    assert(done@.map_values(|p: String| p@) =~= old_done.map_values(|p: String| p@).push(
        s@.subrange(start as int, n as int),
    ));
    done
}

/// `str::split_whitespace`: the non-empty whitespace-separated words.
pub fn split_whitespace(s: &str) -> (r: Vec<String>)
    ensures
        r@.map_values(|p: String| p@) == words(s@),
{
    let cs = chars_of(s);
    let pieces = split_at_whitespace(cs.as_slice());
    let mut out: Vec<String> = Vec::new();
    let n = pieces.len();
    let ghost all = pieces@.map_values(|p: String| p@);
    for i in 0..n
        invariant
            n == pieces@.len(),
            all == pieces@.map_values(|p: String| p@),
            out@.map_values(|p: String| p@) == non_empty_pieces(all.take(i as int)),
    {
        let ghost old_out = out@;
        proof {
            assert(all.take(i + 1).drop_last() =~= all.take(i as int));
            reveal(Seq::filter);
        }
        let empty = pieces[i].as_str().is_empty();
        if !empty {
            out.push(pieces[i].clone());
            assert(out@.map_values(|p: String| p@) =~= old_out.map_values(|p: String| p@).push(
                all[i as int],
            ));
        }
    }
    assert(all.take(n as int) =~= all);
    out
}


// ---------------------------------------------------------------------------
// Trimming and lines
// ---------------------------------------------------------------------------

proof fn lemma_leading_count(s: Seq<char>, p: spec_fn(char) -> bool, k: int)
    requires
        0 <= k <= s.len(),
        forall|j: int| 0 <= j < k ==> p(s[j]),
        k == s.len() || !p(s[k]),
    ensures
        leading_count(s, p) == k,
    decreases k,
{
    if k > 0 {
        assert(p(s[0]));
        let t = s.drop_first();
        assert forall|j: int| 0 <= j < k - 1 implies p(t[j]) by {
            assert(t[j] == s[j + 1]);
        }
        if k - 1 < t.len() {
            assert(t[k - 1] == s[k]);
        }
        lemma_leading_count(t, p, k - 1);
    }
}

proof fn lemma_trailing_count(s: Seq<char>, p: spec_fn(char) -> bool, k: int)
    requires
        0 <= k <= s.len(),
        forall|j: int| s.len() - k <= j < s.len() ==> p(s[j]),
        k == s.len() || !p(s[s.len() - k - 1]),
    ensures
        trailing_count(s, p) == k,
    decreases k,
{
    if k > 0 {
        assert(p(s.last()));
        let t = s.drop_last();
        assert forall|j: int| t.len() - (k - 1) <= j < t.len() implies p(t[j]) by {
            assert(t[j] == s[j]);
        }
        if k - 1 < t.len() {
            assert(t[t.len() - (k - 1) - 1] == s[s.len() - k - 1]);
        }
        lemma_trailing_count(t, p, k - 1);
    }
}

/// `str::trim`: removes leading and trailing whitespace.
pub fn trim_str(s: &str) -> (r: String)
    ensures
        r@ == trim(s@),
{
    let cs = chars_of(s);
    let n = cs.len();
    let mut a: usize = 0;
    while a < n && is_whitespace(cs[a])
        invariant
            n == cs@.len(),
            cs@ == s@,
            a <= n,
            forall|j: int| 0 <= j < a ==> char_is_whitespace(cs@[j]),
        decreases n - a,
    {
        a = a + 1;
    }
    proof {
        lemma_leading_count(s@, whitespace(), a as int);
    }
    let ghost t = s@.skip(a as int);
    let mut b: usize = n;
    while b > a && is_whitespace(cs[b - 1])
        invariant
            n == cs@.len(),
            cs@ == s@,
            t == s@.skip(a as int),
            a <= b <= n,
            forall|j: int| b <= j < n ==> char_is_whitespace(cs@[j]),
        decreases b - a,
    {
        b = b - 1;
    }
    proof {
        let k = n - b;
        assert forall|j: int| t.len() - k <= j < t.len() implies whitespace()(t[j]) by {
            assert(t[j] == s@[j + a]);
        }
        if k < t.len() {
            assert(t[t.len() - k - 1] == s@[b - 1]);
        }
        lemma_trailing_count(t, whitespace(), k as int);
        assert(t.take(t.len() - k) =~= s@.subrange(a as int, b as int));
    }
    string_of_range(cs.as_slice(), a, b)
}

/// `str::trim_matches` with a single character.
pub fn trim_char(s: &str, c: char) -> (r: String)
    ensures
        r@ == trim_by(s@, one_of(seq![c])),
{
    let cs = chars_of(s);
    let n = cs.len();
    let ghost p = one_of(seq![c]);
    let mut a: usize = 0;
    while a < n && cs[a] == c
        invariant
            n == cs@.len(),
            cs@ == s@,
            p == one_of(seq![c]),
            a <= n,
            forall|j: int| 0 <= j < a ==> cs@[j] == c,
        decreases n - a,
    {
        a = a + 1;
    }
    proof {
        assert forall|j: int| 0 <= j < a implies p(s@[j]) by {
            assert(seq![c][0] == c);
        }
        if a < n {
            assert(!seq![c].contains(s@[a as int]));
        }
        lemma_leading_count(s@, p, a as int);
    }
    let ghost t = s@.skip(a as int);
    let mut b: usize = n;
    while b > a && cs[b - 1] == c
        invariant
            n == cs@.len(),
            cs@ == s@,
            t == s@.skip(a as int),
            a <= b <= n,
            forall|j: int| b <= j < n ==> cs@[j] == c,
        decreases b - a,
    {
        b = b - 1;
    }
    proof {
        let k = n - b;
        assert forall|j: int| t.len() - k <= j < t.len() implies p(t[j]) by {
            assert(t[j] == s@[j + a]);
            assert(seq![c][0] == c);
        }
        if k < t.len() {
            assert(t[t.len() - k - 1] == s@[b - 1]);
            assert(!seq![c].contains(s@[b - 1]));
        }
        lemma_trailing_count(t, p, k as int);
        assert(t.take(t.len() - k) =~= s@.subrange(a as int, b as int));
    }
    string_of_range(cs.as_slice(), a, b)
}

/// `str::trim_start_matches` with a single character.
pub fn trim_start_char(s: &str, c: char) -> (r: String)
    ensures
        r@ == trim_start_by(s@, one_of(seq![c])),
{
    let cs = chars_of(s);
    let n = cs.len();
    let ghost p = one_of(seq![c]);
    let mut a: usize = 0;
    while a < n && cs[a] == c
        invariant
            n == cs@.len(),
            cs@ == s@,
            p == one_of(seq![c]),
            a <= n,
            forall|j: int| 0 <= j < a ==> cs@[j] == c,
        decreases n - a,
    {
        a = a + 1;
    }
    proof {
        assert forall|j: int| 0 <= j < a implies p(s@[j]) by {
            assert(seq![c][0] == c);
        }
        if a < n {
            assert(!seq![c].contains(s@[a as int]));
        }
        lemma_leading_count(s@, p, a as int);
        assert(s@.subrange(a as int, n as int) =~= s@.skip(a as int));
    }
    string_of_range(cs.as_slice(), a, n)
}

/// Removes one trailing carriage return from a line, if present.
fn strip_cr_exec(line: &str) -> (r: String)
    ensures
        r@ == strip_cr(line@),
{
    let cs = chars_of(line);
    let n = cs.len();
    if n > 0 && cs[n - 1] == '\r' {
        assert(line@.drop_last() =~= line@.subrange(0, n - 1));
        string_of_range(cs.as_slice(), 0, n - 1)
    } else {
        own(line)
    }
}

/// `str::lines`: the lines of `s`.
pub fn lines_of(s: &str) -> (r: Vec<String>)
    ensures
        r@.map_values(|p: String| p@) == lines(s@),
{
    let cs = chars_of(s);
    let n = cs.len();
    if n == 0 {
        let r: Vec<String> = Vec::new();
        assert(r@.map_values(|p: String| p@) =~= Seq::<Seq<char>>::empty());
        return r;
    }
    let pieces = split_on_char(s, '\n');
    let ghost all = pieces@.map_values(|p: String| p@);
    let m = pieces.len();
    proof {
        lemma_split_by_nonempty(s@, one_of(seq!['\n']));
    }
    let ends_nl = cs[n - 1] == '\n';
    let keep = if ends_nl { m - 1 } else { m };
    let ghost stripped = strip_cr_but_last(all);
    let mut out: Vec<String> = Vec::new();
    for i in 0..keep
        invariant
            m == pieces@.len(),
            m >= 1,
            keep <= m,
            all == pieces@.map_values(|p: String| p@),
            stripped == strip_cr_but_last(all),
            out@.map_values(|p: String| p@) == stripped.take(i as int),
    {
        let ghost old_out = out@;
        let line = if i + 1 < m {
            strip_cr_exec(pieces[i].as_str())
        } else {
            pieces[i].clone()
        };
        assert(all[i as int] == pieces@[i as int]@);
        assert(stripped[i as int] == line@);
        out.push(line);
        assert(out@.map_values(|p: String| p@) =~= old_out.map_values(|p: String| p@).push(line@));
        assert(stripped.take(i + 1) =~= stripped.take(i as int).push(stripped[i as int]));
    }
    proof {
        if ends_nl {
            assert(s@.last() == '\n');
            assert(stripped.take(keep as int) =~= stripped.drop_last());
        } else {
            assert(s@.last() != '\n');
            assert(stripped.take(keep as int) =~= stripped);
        }
    }
    out
}

// ---------------------------------------------------------------------------
// Searching a list of candidates
// ---------------------------------------------------------------------------

/// The views of a list of string slices.
pub open spec fn str_views(v: Seq<&str>) -> Seq<Seq<char>> {
    v.map_values(|c: &str| c@)
}

proof fn lemma_first_contained_skip(v: Seq<Seq<char>>, s: Seq<char>, i: int)
    requires
        0 <= i <= v.len(),
        forall|j: int| 0 <= j < i ==> !contains_seq(s, #[trigger] v[j]),
    ensures
        first_contained(v, s) == first_contained(v.skip(i), s),
    decreases i,
{
    if i > 0 {
        assert(!contains_seq(s, v[0]));
        let w = v.drop_first();
        assert forall|j: int| 0 <= j < i - 1 implies !contains_seq(s, #[trigger] w[j]) by {
            assert(w[j] == v[j + 1]);
        }
        lemma_first_contained_skip(w, s, i - 1);
        assert(w.skip(i - 1) =~= v.skip(i));
    } else {
        assert(v.skip(0) =~= v);
    }
}

/// Position of the first candidate that occurs in `s`, if any.
pub fn find_first_contained(candidates: &Vec<&str>, s: &str) -> (r: Option<usize>)
    ensures
        match r {
            Some(i) => i < candidates@.len() && first_contained(str_views(candidates@), s@)
                == Some(candidates@[i as int]@),
            None => first_contained(str_views(candidates@), s@) is None,
        },
{
    let ghost v = str_views(candidates@);
    let n = candidates.len();
    for i in 0..n
        invariant
            n == candidates@.len(),
            v == str_views(candidates@),
            forall|j: int| 0 <= j < i ==> !contains_seq(s@, #[trigger] v[j]),
    {
        if contains_str(s, candidates[i]) {
            proof {
                lemma_first_contained_skip(v, s@, i as int);
                assert(v.skip(i as int)[0] == candidates@[i as int]@);
            }
            return Some(i);
        }
    }
    proof {
        lemma_first_contained_skip(v, s@, n as int);
        assert(v.skip(n as int).len() == 0);
    }
    None
}

/// Splitting at a character always yields at least one piece.
pub proof fn lemma_split_char_nonempty(s: Seq<char>, c: char)
    ensures
        split_char(s, c).len() >= 1,
{
    lemma_split_by_nonempty(s, one_of(seq![c]));
}

} // verus!
