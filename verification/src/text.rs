//! Text primitives: numerals, trimming, splitting and joining, each with its
//! meaning stated over sequences of characters.

use vstd::prelude::*;

verus! {

/// `String::push` appends one character.
pub assume_specification[ String::push ](s: &mut String, c: char)
    ensures
        final(s)@ == old(s)@.push(c),
;

/// The texts held by a sequence of strings.
pub open spec fn texts(v: Seq<String>) -> Seq<Seq<char>> {
    Seq::new(v.len(), |i: int| v[i]@)
}

/// The characters of `s`, one per element.
pub fn chars_of(s: &str) -> (r: Vec<char>)
    ensures
        r@ == s@,
{
    let mut v: Vec<char> = Vec::new();
    for c in it: s.chars()
        invariant
            v@ == it.seq().take(it.index()),
            it.seq() == s@,
    {
        v.push(c);
    }
    v
}

/// Whether two texts are the same.
pub fn same(a: &str, b: &str) -> (r: bool)
    ensures
        r == (a@ == b@),
{
    let x = a.to_owned();
    let y = b.to_owned();
    x == y
}

/// Whether `s` is one of `list`.
pub fn listed(list: &Vec<String>, s: &str) -> (r: bool)
    ensures
        r == texts(list@).contains(s@),
{
    let mut i: usize = 0;
    while i < list.len()
        invariant
            i <= list@.len(),
            forall|j: int| 0 <= j < i ==> list@[j]@ != s@,
        decreases list@.len() - i,
    {
        if same(list[i].as_str(), s) {
            assert(texts(list@)[i as int] == s@);
            return true;
        }
        i += 1;
    }
    assert forall|j: int| 0 <= j < texts(list@).len() implies texts(list@)[j] != s@ by {}
    false
}

/// A copy of `list`.
pub fn copy_list(list: &Vec<String>) -> (r: Vec<String>)
    ensures
        r@ == list@,
{
    let mut out: Vec<String> = Vec::new();
    let mut i: usize = 0;
    while i < list.len()
        invariant
            i <= list@.len(),
            out@ == list@.take(i as int),
        decreases list@.len() - i,
    {
        out.push(list[i].clone());
        i += 1;
    }
    assert(out@ =~= list@);
    out
}

// ---------- Numerals ----------

/// The character of one decimal digit.
pub open spec fn digit_char(d: nat) -> char {
    (48 + d) as char
}

/// The decimal numeral of `n`, without leading zeros.
pub open spec fn numeral(n: nat) -> Seq<char>
    decreases n,
{
    if n < 10 {
        seq![digit_char(n)]
    } else {
        numeral(n / 10).push(digit_char(n % 10))
    }
}

/// Whether `c` is an ASCII decimal digit.
pub open spec fn is_digit(c: char) -> bool {
    '0' <= c && c <= '9'
}

/// The value of a sequence of decimal digits, most significant first.
pub open spec fn digits_value(s: Seq<char>) -> nat
    decreases s.len(),
{
    if s.len() == 0 {
        0
    } else {
        digits_value(s.drop_last()) * 10 + (s.last() as nat - 48) as nat
    }
}

/// The digits of an unsigned numeral: an optional leading plus sign is dropped.
pub open spec fn unsigned_digits(s: Seq<char>) -> Seq<char> {
    if s.len() > 0 && s[0] == '+' {
        s.skip(1)
    } else {
        s
    }
}

/// The number that `s` denotes: an optional plus sign and at least one digit,
/// with a value of at most `max`.
pub open spec fn parsed_number(s: Seq<char>, max: nat) -> Option<nat> {
    let d = unsigned_digits(s);
    if d.len() > 0 && (forall|i: int| 0 <= i < d.len() ==> is_digit(#[trigger] d[i])) && digits_value(d) <= max {
        Some(digits_value(d))
    } else {
        None
    }
}

/// The numeral of `n`.
pub fn decimal(n: u64) -> (r: String)
    ensures
        r@ == numeral(n as nat),
    decreases n,
{
    let d = (48u8 + (n % 10) as u8) as char;
    if n < 10 {
        let mut s = String::new();
        s.push(d);
        assert(s@ =~= numeral(n as nat));
        s
    } else {
        let mut s = decimal(n / 10);
        s.push(d);
        s
    }
}

/// `n` zeros.
pub open spec fn zeros(n: nat) -> Seq<char> {
    Seq::new(n, |i: int| '0')
}

/// The numeral of `n`, filled up with leading zeros to at least `width` characters.
pub open spec fn padded_numeral(n: nat, width: nat) -> Seq<char> {
    let s = numeral(n);
    if s.len() < width {
        zeros((width - s.len()) as nat) + s
    } else {
        s
    }
}

/// The numeral of `n` with leading zeros up to `width` characters.
pub fn padded_decimal(n: u64, width: usize) -> (r: String)
    ensures
        r@ == padded_numeral(n as nat, width as nat),
{
    let digits = decimal(n);
    let len = digits.as_str().unicode_len();
    if len >= width {
        return digits;
    }
    let mut out = String::new();
    let fill = width - len;
    let mut i: usize = 0;
    while i < fill
        invariant
            i <= fill,
            out@ == zeros(i as nat),
        decreases fill - i,
    {
        out.push('0');
        i += 1;
        assert(out@ =~= zeros(i as nat));
    }
    out.append(digits.as_str());
    out
}

/// The value of a longer digit string is at least that of its beginning.
proof fn lemma_digits_value_grows(s: Seq<char>, k: int)
    requires
        0 <= k <= s.len(),
        forall|i: int| 0 <= i < s.len() ==> is_digit(#[trigger] s[i]),
    ensures
        digits_value(s.take(k)) <= digits_value(s),
    decreases s.len(),
{
    if k == s.len() {
        assert(s.take(k) =~= s);
    } else {
        assert(s.drop_last().take(k) =~= s.take(k));
        lemma_digits_value_grows(s.drop_last(), k);
    }
}

/// Reads an unsigned decimal number of at most `max`.
pub fn parse_number(s: &str, max: u64) -> (r: Option<u64>)
    ensures
        match r {
            Some(v) => parsed_number(s@, max as nat) == Some(v as nat),
            None => parsed_number(s@, max as nat) is None,
        },
{
    let chars = chars_of(s);
    let start: usize = if chars.len() > 0 && chars[0] == '+' {
        1
    } else {
        0
    };
    let ghost d = unsigned_digits(s@);
    assert(d =~= s@.skip(start as int));
    if start == chars.len() {
        return None;
    }
    let mut value: u64 = 0;
    let mut i: usize = start;
    while i < chars.len()
        invariant
            chars@ == s@,
            start <= i <= chars@.len(),
            start < chars@.len(),
            d == s@.skip(start as int),
            d == unsigned_digits(s@),
            forall|j: int| 0 <= j < i - start ==> is_digit(#[trigger] d[j]),
            value == digits_value(d.take(i - start)),
            value <= max,
        decreases chars@.len() - i,
    {
        let c = chars[i];
        assert(d[i - start] == c);
        if c < '0' || c > '9' {
            return None;
        }
        let v = (c as u32 - 48) as u64;
        assert(d.take(i - start + 1).drop_last() =~= d.take(i - start));
        assert(digits_value(d.take(i - start + 1)) == value * 10 + v);
        if value > (u64::MAX - v) / 10 || value * 10 + v > max {
            proof {
                if forall|j: int| 0 <= j < d.len() ==> is_digit(#[trigger] d[j]) {
                    lemma_digits_value_grows(d, i - start + 1);
                }
            }
            return None;
        }
        value = value * 10 + v;
        i += 1;
    }
    assert(d.take(d.len() as int) =~= d);
    Some(value)
}

/// Every character of a numeral is a digit, and the numeral denotes its number.
pub proof fn lemma_numeral(n: nat)
    ensures
        numeral(n).len() > 0,
        forall|i: int| 0 <= i < numeral(n).len() ==> is_digit(#[trigger] numeral(n)[i]),
        digits_value(numeral(n)) == n,
    decreases n,
{
    if n < 10 {
        let s = numeral(n);
        assert(s.drop_last() =~= Seq::<char>::empty());
        assert(digits_value(s.drop_last()) == 0);
        assert(s.last() as nat == 48 + n);
    } else {
        lemma_numeral(n / 10);
        let s = numeral(n);
        assert(s.drop_last() =~= numeral(n / 10));
        assert(s.last() as nat == 48 + n % 10);
    }
}

/// Reading back the numeral of a number gives that number, for every number in range.
pub proof fn law_numeral_reads_back(n: nat, max: nat)
    requires
        n <= max,
    ensures
        parsed_number(numeral(n), max) == Some(n),
{
    lemma_numeral(n);
    assert(is_digit(numeral(n)[0]));
}

/// A number is written in tens: one more digit behind the numeral of a number
/// that is not zero makes ten times it and the digit.
pub proof fn law_numeral_is_written_in_tens(n: nat, d: nat)
    requires
        d < 10,
    ensures
        n > 0 ==> numeral(10 * n + d) == numeral(n).push(digit_char(d)),
        numeral(d) == seq![digit_char(d)],
        digit_char(d) as nat == '0' as nat + d,
{
    assert((10 * n + d) / 10 == n);
    assert((10 * n + d) % 10 == d);
}

/// Only digits, behind at most one plus sign, are read as a number, and only
/// where the number is not too large.
pub proof fn law_only_digits_are_a_number(s: Seq<char>, max: nat)
    requires
        parsed_number(s, max) is Some,
    ensures
        s.len() > 0,
        s[0] == '+' || '0' <= s[0] <= '9',
        forall|i: int| 0 < i < s.len() ==> '0' <= #[trigger] s[i] <= '9',
        parsed_number(s, max)->0 <= max,
{
    let d = unsigned_digits(s);
    if s[0] == '+' {
        assert forall|i: int| 0 < i < s.len() implies '0' <= #[trigger] s[i] <= '9' by {
            assert(is_digit(d[i - 1]));
        }
    } else {
        assert(is_digit(d[0]));
        assert forall|i: int| 0 < i < s.len() implies '0' <= #[trigger] s[i] <= '9' by {
            assert(is_digit(d[i]));
        }
    }
}

// ---------- Hexadecimal ----------

/// The character of one hexadecimal digit, in lower case.
pub open spec fn hex_digit(d: nat) -> char {
    if d < 10 {
        (48 + d) as char
    } else {
        (87 + d) as char
    }
}

/// Each byte of `data` as two hexadecimal digits.
pub open spec fn hex_text(data: Seq<u8>) -> Seq<char> {
    Seq::new(
        2 * data.len(),
        |i: int|
            if i % 2 == 0 {
                hex_digit(data[i / 2] as nat / 16)
            } else {
                hex_digit(data[i / 2] as nat % 16)
            },
    )
}

/// Writes `data` in hexadecimal with `hex::encode`.
///
/// Trusted: every byte becomes two lower-case digits, the high half first.
#[verifier::external_body]
pub(crate) fn to_hex(data: &[u8]) -> (r: String)
    ensures
        r@ == hex_text(data@),
{
    hex::encode(data)
}

// ---------- Trimming ----------

proof fn lemma_hex_digits_differ(a: nat, b: nat)
    requires
        a < 16,
        b < 16,
        hex_digit(a) == hex_digit(b),
    ensures
        a == b,
{
    assert(hex_digit(a) as nat == if a < 10 { 48 + a } else { 87 + a });
    assert(hex_digit(b) as nat == if b < 10 { 48 + b } else { 87 + b });
}

/// Different bytes have different hexadecimal texts, of two characters a byte.
pub proof fn law_hexadecimal_tells_bytes_apart(a: Seq<u8>, b: Seq<u8>)
    ensures
        hex_text(a).len() == 2 * a.len(),
        hex_text(a) == hex_text(b) ==> a == b,
{
    if hex_text(a) == hex_text(b) {
        assert(hex_text(a).len() == hex_text(b).len());
        assert forall|i: int| 0 <= i < a.len() implies #[trigger] a[i] == b[i] by {
            let (x, y) = (a[i] as nat, b[i] as nat);
            assert(hex_text(a)[2 * i] == hex_text(b)[2 * i]);
            assert(hex_text(a)[2 * i + 1] == hex_text(b)[2 * i + 1]);
            assert((2 * i) / 2 == i && (2 * i + 1) / 2 == i);
            lemma_hex_digits_differ(x / 16, y / 16);
            lemma_hex_digits_differ(x % 16, y % 16);
        }
        assert(a =~= b);
    }
}

/// A numeral filled up with zeros has at least the width asked for, no more
/// zeros than that takes, and still denotes its number.
pub proof fn law_padded_numeral(n: nat, width: nat)
    ensures
        padded_numeral(n, width).len() >= width,
        padded_numeral(n, width).len() > width ==> padded_numeral(n, width) == numeral(n),
        padded_numeral(n, width).skip(padded_numeral(n, width).len() - numeral(n).len())
            == numeral(n),
        forall|i: int|
            0 <= i < padded_numeral(n, width).len() - numeral(n).len() ==> (
            #[trigger] padded_numeral(n, width)[i]) == '0',
{
    let p = padded_numeral(n, width);
    assert(p.skip(p.len() - numeral(n).len()) =~= numeral(n));
}

/// What is cut off both ends of a text.
#[derive(Clone, Copy, PartialEq, Eq, Debug)]
pub enum Margin {
    /// The path separator `/`.
    Slash,
    /// Unicode white space.
    White,
}

/// Whether `c` has the Unicode property `White_Space`.
pub open spec fn is_white(c: char) -> bool {
    let n = c as u32;
    ||| 9 <= n <= 13
    ||| n == 32
    ||| n == 0x85
    ||| n == 0xA0
    ||| n == 0x1680
    ||| 0x2000 <= n <= 0x200A
    ||| n == 0x2028
    ||| n == 0x2029
    ||| n == 0x202F
    ||| n == 0x205F
    ||| n == 0x3000
}

/// Whether `c` belongs to the margin `m`.
pub open spec fn in_margin(m: Margin, c: char) -> bool {
    match m {
        Margin::Slash => c == '/',
        Margin::White => is_white(c),
    }
}

/// `s` without the margin characters that it begins with.
pub open spec fn strip_start(s: Seq<char>, m: Margin) -> Seq<char>
    decreases s.len(),
{
    if s.len() > 0 && in_margin(m, s[0]) {
        strip_start(s.skip(1), m)
    } else {
        s
    }
}

/// `s` without the margin characters that it ends with.
pub open spec fn strip_end(s: Seq<char>, m: Margin) -> Seq<char>
    decreases s.len(),
{
    if s.len() > 0 && in_margin(m, s.last()) {
        strip_end(s.drop_last(), m)
    } else {
        s
    }
}

/// `s` without margin characters at either end.
pub open spec fn trimmed(s: Seq<char>, m: Margin) -> Seq<char> {
    strip_end(strip_start(s, m), m)
}

/// A trimmed text begins and ends with no margin character, and trimming it
/// again changes nothing.
pub proof fn lemma_trimmed(s: Seq<char>, m: Margin)
    ensures
        trimmed(s, m).len() > 0 ==> !in_margin(m, trimmed(s, m)[0]) && !in_margin(
            m,
            trimmed(s, m).last(),
        ),
        trimmed(trimmed(s, m), m) == trimmed(s, m),
{
    lemma_stripped_start(s, m);
    lemma_stripped_end(strip_start(s, m), m);
}

/// Trimming takes the margin at either end away, and nothing else.
pub proof fn law_trimming_takes_the_margins(
    lead: Seq<char>,
    s: Seq<char>,
    tail: Seq<char>,
    m: Margin,
)
    requires
        forall|i: int| 0 <= i < lead.len() ==> in_margin(m, #[trigger] lead[i]),
        forall|i: int| 0 <= i < tail.len() ==> in_margin(m, #[trigger] tail[i]),
        s.len() > 0 ==> !in_margin(m, s[0]) && !in_margin(m, s.last()),
    ensures
        trimmed(lead + s + tail, m) == s,
    decreases lead.len() + tail.len(),
{
    let whole = lead + s + tail;
    if lead.len() > 0 {
        assert(whole[0] == lead[0]);
        assert(whole.skip(1) =~= lead.skip(1) + s + tail);
        law_trimming_takes_the_margins(lead.skip(1), s, tail, m);
    } else if s.len() == 0 && tail.len() > 0 {
        assert(whole =~= tail);
        assert(whole[0] == tail[0]);
        assert(whole.skip(1) =~= lead + s + tail.skip(1));
        law_trimming_takes_the_margins(lead, s, tail.skip(1), m);
    } else if tail.len() > 0 {
        assert(whole[0] == s[0]);
        assert(whole.last() == tail.last());
        assert(whole.drop_last() =~= lead + s + tail.drop_last());
        law_trimming_takes_the_margins(lead, s, tail.drop_last(), m);
        assert(whole.drop_last()[0] == s[0]);
    } else {
        assert(whole =~= s);
    }
}

proof fn lemma_strip_before_margin(s: Seq<char>, c: char, m: Margin)
    requires
        in_margin(m, c),
    ensures
        strip_start(s.push(c), m) == if strip_start(s, m).len() == 0 {
            Seq::<char>::empty()
        } else {
            strip_start(s, m).push(c)
        },
    decreases s.len(),
{
    let more = s.push(c);
    if s.len() == 0 {
        assert(more.skip(1) =~= Seq::<char>::empty());
        reveal_with_fuel(strip_start, 2);
    } else {
        assert(more[0] == s[0]);
        if in_margin(m, s[0]) {
            assert(more.skip(1) =~= s.skip(1).push(c));
            lemma_strip_before_margin(s.skip(1), c, m);
        }
    }
}

/// More margin at either end does not change what trimming leaves.
pub proof fn law_more_margin_does_not_matter(
    lead: Seq<char>,
    s: Seq<char>,
    tail: Seq<char>,
    m: Margin,
)
    requires
        forall|i: int| 0 <= i < lead.len() ==> in_margin(m, #[trigger] lead[i]),
        forall|i: int| 0 <= i < tail.len() ==> in_margin(m, #[trigger] tail[i]),
    ensures
        trimmed(lead + s + tail, m) == trimmed(s, m),
    decreases lead.len() + tail.len(),
{
    let whole = lead + s + tail;
    if lead.len() > 0 {
        assert(whole[0] == lead[0]);
        assert(whole.skip(1) =~= lead.skip(1) + s + tail);
        law_more_margin_does_not_matter(lead.skip(1), s, tail, m);
    } else if tail.len() > 0 {
        let fewer = lead + s + tail.drop_last();
        assert(whole =~= fewer.push(tail.last()));
        lemma_strip_before_margin(fewer, tail.last(), m);
        law_more_margin_does_not_matter(lead, s, tail.drop_last(), m);
        let kept = strip_start(fewer, m);
        if kept.len() > 0 {
            assert(kept.push(tail.last()).drop_last() =~= kept);
        }
    } else {
        assert(whole =~= s);
    }
}

/// Blanks, tabs and line ends are white space; no other character of ASCII that
/// can be seen is.
pub proof fn law_white_space(c: char)
    ensures
        c == ' ' || c == '\t' || c == '\n' || c == '\r' ==> in_margin(Margin::White, c),
        '!' <= c <= '~' ==> !in_margin(Margin::White, c),
        in_margin(Margin::Slash, c) == (c == '/'),
{
}

proof fn lemma_stripped_start(s: Seq<char>, m: Margin)
    ensures
        strip_start(s, m).len() > 0 ==> !in_margin(m, strip_start(s, m)[0]),
    decreases s.len(),
{
    if s.len() > 0 && in_margin(m, s[0]) {
        lemma_stripped_start(s.skip(1), m);
    }
}

proof fn lemma_stripped_end(s: Seq<char>, m: Margin)
    ensures
        strip_end(s, m).len() > 0 ==> !in_margin(m, strip_end(s, m).last()) && strip_end(s, m)[0]
            == s[0],
    decreases s.len(),
{
    if s.len() > 0 && in_margin(m, s.last()) {
        lemma_stripped_end(s.drop_last(), m);
    }
}

fn belongs_to(m: Margin, c: char) -> (r: bool)
    ensures
        r == in_margin(m, c),
{
    match m {
        Margin::Slash => c == '/',
        Margin::White => {
            let n = c as u32;
            (9 <= n && n <= 13) || n == 32 || n == 0x85 || n == 0xA0 || n == 0x1680 || (0x2000 <= n
                && n <= 0x200A) || n == 0x2028 || n == 0x2029 || n == 0x202F || n == 0x205F || n
                == 0x3000
        },
    }
}

/// Cuts the margin characters off both ends of `s`.
pub fn trim(s: &str, m: Margin) -> (r: String)
    ensures
        r@ == trimmed(s@, m),
{
    let chars = chars_of(s);
    let mut lo: usize = 0;
    assert(s@.skip(0) =~= s@);
    while lo < chars.len() && belongs_to(m, chars[lo])
        invariant
            chars@ == s@,
            lo <= chars@.len(),
            strip_start(s@.skip(lo as int), m) == strip_start(s@, m),
        decreases chars@.len() - lo,
    {
        assert(s@.skip(lo as int).skip(1) =~= s@.skip(lo + 1));
        lo += 1;
    }
    let mut hi: usize = chars.len();
    let ghost rest = s@.skip(lo as int);
    assert(rest == strip_start(s@, m));
    assert(s@.subrange(lo as int, hi as int) =~= rest);
    while lo < hi && belongs_to(m, chars[hi - 1])
        invariant
            chars@ == s@,
            lo <= hi <= chars@.len(),
            strip_end(s@.subrange(lo as int, hi as int), m) == strip_end(rest, m),
        decreases hi,
    {
        assert(s@.subrange(lo as int, hi as int).drop_last() =~= s@.subrange(lo as int, hi - 1));
        hi -= 1;
    }
    s.substring_char(lo, hi).to_owned()
}

// ---------- Splitting and joining ----------

/// The position of the first `c` in `s`, or the length of `s`.
pub open spec fn first_index(s: Seq<char>, c: char) -> nat
    decreases s.len(),
{
    if s.len() == 0 || s[0] == c {
        0
    } else {
        1 + first_index(s.skip(1), c)
    }
}

/// The pieces of `s` between the separators `c`: one more than there are separators.
pub open spec fn pieces(s: Seq<char>, c: char) -> Seq<Seq<char>>
    decreases s.len(),
{
    let i = first_index(s, c);
    if i < s.len() {
        seq![s.take(i as int)] + pieces(s.skip(i as int + 1), c)
    } else {
        seq![s]
    }
}

proof fn lemma_first_index(s: Seq<char>, c: char)
    ensures
        first_index(s, c) <= s.len(),
        first_index(s, c) < s.len() ==> s[first_index(s, c) as int] == c,
        forall|j: int| 0 <= j < first_index(s, c) ==> s[j] != c,
    decreases s.len(),
{
    if s.len() > 0 && s[0] != c {
        lemma_first_index(s.skip(1), c);
        assert forall|j: int| 0 <= j < first_index(s, c) implies s[j] != c by {
            if j > 0 {
                assert(s[j] == s.skip(1)[j - 1]);
            }
        }
    }
}

proof fn lemma_first_index_is(s: Seq<char>, c: char, i: int)
    requires
        0 <= i <= s.len(),
        forall|j: int| 0 <= j < i ==> s[j] != c,
        i < s.len() ==> s[i] == c,
    ensures
        first_index(s, c) == i,
{
    lemma_first_index(s, c);
    let f = first_index(s, c) as int;
    if f < i {
        assert(s[f] != c);
    } else if i < f {
        assert(s[i] != c);
    }
}

/// The pieces of a text without separators are the text itself; there is always a piece.
pub proof fn lemma_pieces(s: Seq<char>, c: char)
    ensures
        pieces(s, c).len() > 0,
        !s.contains(c) ==> pieces(s, c) == seq![s],
        pieces(s, c).len() == 1 ==> !s.contains(c) && pieces(s, c)[0] == s,
    decreases s.len(),
{
    lemma_first_index(s, c);
    let i = first_index(s, c) as int;
    if i < s.len() {
        assert(s[i] == c);
        lemma_pieces(s.skip(i + 1), c);
    } else if s.contains(c) {
        let j = choose|j: int| 0 <= j < s.len() && s[j] == c;
        assert(s[j] != c);
    }
}

/// A text without separators, put behind another and a separator, is one more piece.
pub proof fn lemma_pieces_append(s: Seq<char>, t: Seq<char>, c: char)
    requires
        !t.contains(c),
    ensures
        pieces(s.push(c) + t, c) == pieces(s, c).push(t),
    decreases s.len(),
{
    lemma_first_index(s, c);
    let whole = s.push(c) + t;
    let i = first_index(s, c) as int;
    assert forall|j: int| 0 <= j < i implies whole[j] != c by {
        assert(whole[j] == s[j]);
    }
    lemma_first_index_is(whole, c, i);
    if i < s.len() {
        let rest = s.skip(i + 1);
        lemma_pieces_append(rest, t, c);
        assert(whole.take(i) =~= s.take(i));
        assert(whole.skip(i + 1) =~= rest.push(c) + t);
        assert(pieces(whole, c) =~= pieces(s, c).push(t));
    } else {
        lemma_pieces(t, c);
        assert(whole.take(i) =~= s);
        assert(whole.skip(i + 1) =~= t);
        assert(pieces(whole, c) =~= pieces(s, c).push(t));
    }
}

/// A text whose last piece is not empty does not end with a separator.
pub proof fn lemma_last_piece(s: Seq<char>, c: char)
    requires
        pieces(s, c).last().len() > 0,
    ensures
        s.len() > 0,
        s.last() != c,
    decreases s.len(),
{
    lemma_first_index(s, c);
    let i = first_index(s, c) as int;
    if i < s.len() {
        let rest = s.skip(i + 1);
        lemma_pieces(rest, c);
        assert(pieces(s, c).last() == pieces(rest, c).last());
        lemma_last_piece(rest, c);
        assert(s.last() == rest.last());
    }
}

/// Splits `s` at every separator `c`.
pub fn split(s: &str, c: char) -> (r: Vec<String>)
    ensures
        texts(r@) == pieces(s@, c),
        r@.len() > 0,
{
    let chars = chars_of(s);
    let mut out: Vec<String> = Vec::new();
    let mut start: usize = 0;
    let mut i: usize = 0;
    assert(s@.skip(0) =~= s@);
    assert(texts(out@) + pieces(s@, c) =~= pieces(s@, c));
    while i < chars.len()
        invariant
            chars@ == s@,
            start <= i <= chars@.len(),
            forall|j: int| start <= j < i ==> s@[j] != c,
            texts(out@) + pieces(s@.skip(start as int), c) == pieces(s@, c),
        decreases chars@.len() - i,
    {
        if chars[i] == c {
            let ghost rest = s@.skip(start as int);
            let ghost before = texts(out@);
            proof {
                assert forall|j: int| 0 <= j < i - start implies rest[j] != c by {
                    assert(rest[j] == s@[start + j]);
                }
                lemma_first_index_is(rest, c, i - start);
                assert(rest.take(i - start) =~= s@.subrange(start as int, i as int));
                assert(rest.skip(i - start + 1) =~= s@.skip(i + 1));
            }
            out.push(s.substring_char(start, i).to_owned());
            proof {
                assert(texts(out@) =~= before.push(rest.take(i - start)));
                assert(texts(out@) + pieces(s@.skip(i + 1), c) =~= before + pieces(rest, c));
            }
            start = i + 1;
        }
        i += 1;
    }
    let ghost rest = s@.skip(start as int);
    let ghost before = texts(out@);
    proof {
        assert forall|j: int| 0 <= j < rest.len() implies rest[j] != c by {
            assert(rest[j] == s@[start + j]);
        }
        lemma_first_index_is(rest, c, rest.len() as int);
        assert(rest =~= s@.subrange(start as int, s@.len() as int));
    }
    out.push(s.substring_char(start, chars.len()).to_owned());
    proof {
        assert(texts(out@) =~= before.push(rest));
        assert(before.push(rest) =~= before + seq![rest]);
    }
    out
}

/// The texts `parts`, with `sep` between each two.
pub open spec fn joined(parts: Seq<Seq<char>>, sep: Seq<char>) -> Seq<char>
    decreases parts.len(),
{
    if parts.len() == 0 {
        Seq::empty()
    } else if parts.len() == 1 {
        parts[0]
    } else {
        joined(parts.drop_last(), sep) + sep + parts.last()
    }
}

/// One more text in front comes first, with a separator behind it.
pub proof fn lemma_joined_front(a: Seq<char>, parts: Seq<Seq<char>>, sep: Seq<char>)
    requires
        parts.len() > 0,
    ensures
        joined(seq![a] + parts, sep) == a + sep + joined(parts, sep),
    decreases parts.len(),
{
    let all = seq![a] + parts;
    assert(all.drop_last() =~= seq![a] + parts.drop_last());
    if parts.len() == 1 {
        assert(all.drop_last() =~= seq![a]);
        assert(joined(all.drop_last(), sep) == a);
    } else {
        lemma_joined_front(a, parts.drop_last(), sep);
        assert(joined(all, sep) =~= a + sep + joined(parts, sep));
    }
}

/// The pieces of a text, joined again, are the text.
pub proof fn lemma_pieces_join(s: Seq<char>, c: char)
    ensures
        joined(pieces(s, c), seq![c]) == s,
    decreases s.len(),
{
    lemma_first_index(s, c);
    let i = first_index(s, c) as int;
    if i < s.len() {
        let rest = s.skip(i + 1);
        lemma_pieces(rest, c);
        lemma_pieces_join(rest, c);
        lemma_joined_front(s.take(i), pieces(rest, c), seq![c]);
        assert(s.take(i) + seq![c] + rest =~= s);
    }
}

/// Texts without separators, joined by separators, are the pieces again.
pub proof fn law_joined_texts_split_again(parts: Seq<Seq<char>>, c: char)
    requires
        parts.len() > 0,
        forall|i: int| 0 <= i < parts.len() ==> !(#[trigger] parts[i]).contains(c),
    ensures
        pieces(joined(parts, seq![c]), c) == parts,
    decreases parts.len(),
{
    let last = parts.last();
    if parts.len() == 1 {
        lemma_pieces(last, c);
        assert(parts =~= seq![last]);
    } else {
        let fewer = parts.drop_last();
        assert forall|i: int| 0 <= i < fewer.len() implies !(#[trigger] fewer[i]).contains(c) by {
            assert(fewer[i] == parts[i]);
        }
        law_joined_texts_split_again(fewer, c);
        let front = joined(fewer, seq![c]);
        assert(!parts[parts.len() - 1].contains(c));
        lemma_pieces_append(front, last, c);
        assert(front.push(c) + last =~= joined(parts, seq![c]));
        assert(fewer.push(last) =~= parts);
    }
}

/// Joins the first `n` of `parts` with `sep`.
pub fn join_first(parts: &Vec<String>, n: usize, sep: &str) -> (r: String)
    requires
        n <= parts@.len(),
    ensures
        r@ == joined(texts(parts@).take(n as int), sep@),
{
    let mut out = String::new();
    let ghost all = texts(parts@);
    let mut i: usize = 0;
    while i < n
        invariant
            i <= n <= parts@.len(),
            all == texts(parts@),
            out@ == joined(all.take(i as int), sep@),
        decreases n - i,
    {
        assert(all.take(i + 1).drop_last() =~= all.take(i as int));
        if i > 0 {
            out.append(sep);
        }
        out.append(parts[i].as_str());
        assert(out@ =~= joined(all.take(i + 1), sep@)) by {
            if i == 0 {
                assert(all.take(0) =~= Seq::<Seq<char>>::empty());
            }
        }
        i += 1;
    }
    out
}

/// The concatenation of `a` and `b`.
pub fn concat(a: &str, b: &str) -> (r: String)
    ensures
        r@ == a@ + b@,
{
    let mut out = a.to_owned();
    out.append(b);
    out
}

/// `s` with every leading repetition of `prefix` removed.
pub open spec fn without_leading(s: Seq<char>, prefix: Seq<char>) -> Seq<char>
    decreases s.len(),
{
    if prefix.len() > 0 && prefix.is_prefix_of(s) {
        without_leading(s.skip(prefix.len() as int), prefix)
    } else {
        s
    }
}

/// A prefix is taken away however often it stands in front, and nothing behind it.
pub proof fn law_prefix_is_taken_away(prefix: Seq<char>, s: Seq<char>)
    requires
        prefix.len() > 0,
    ensures
        without_leading(prefix + s, prefix) == without_leading(s, prefix),
        !prefix.is_prefix_of(s) ==> without_leading(s, prefix) == s,
{
    let whole = prefix + s;
    assert(whole.take(prefix.len() as int) =~= prefix);
    assert(whole.skip(prefix.len() as int) =~= s);
}

/// Whether `pat` stands in `s` at position `at`.
fn stands_at(s: &Vec<char>, pat: &Vec<char>, at: usize) -> (r: bool)
    ensures
        r == (at + pat@.len() <= s@.len() && s@.subrange(at as int, at + pat@.len()) == pat@),
{
    if at > s.len() || pat.len() > s.len() - at {
        return false;
    }
    let mut i: usize = 0;
    while i < pat.len()
        invariant
            i <= pat@.len(),
            at + pat@.len() <= s@.len(),
            forall|j: int| 0 <= j < i ==> s@[at + j] == pat@[j],
        decreases pat@.len() - i,
    {
        assert(at + i < s.len());
        if s[at + i] != pat[i] {
            assert(s@.subrange(at as int, at + pat@.len())[i as int] != pat@[i as int]);
            return false;
        }
        i += 1;
    }
    assert(s@.subrange(at as int, at + pat@.len()) =~= pat@);
    true
}

/// Removes every leading repetition of `prefix`.
pub fn strip_leading(s: &str, prefix: &str) -> (r: String)
    requires
        prefix@.len() > 0,
    ensures
        r@ == without_leading(s@, prefix@),
{
    let chars = chars_of(s);
    let pat = chars_of(prefix);
    let mut at: usize = 0;
    assert(s@.skip(0) =~= s@);
    while stands_at(&chars, &pat, at)
        invariant
            chars@ == s@,
            pat@ == prefix@,
            prefix@.len() > 0,
            at <= chars@.len(),
            without_leading(s@.skip(at as int), prefix@) == without_leading(s@, prefix@),
        decreases chars@.len() - at,
    {
        assert(s@.skip(at as int).take(prefix@.len() as int) =~= prefix@) by {
            assert(s@.subrange(at as int, at + prefix@.len()) == prefix@);
        }
        assert(s@.skip(at as int).skip(prefix@.len() as int) =~= s@.skip(at + prefix@.len()));
        assert(at + pat.len() <= chars.len());
        at += pat.len();
    }
    assert(!prefix@.is_prefix_of(s@.skip(at as int))) by {
        if prefix@.is_prefix_of(s@.skip(at as int)) {
            assert(s@.subrange(at as int, at + prefix@.len()) =~= prefix@);
        }
    }
    assert(s@.skip(at as int) =~= s@.subrange(at as int, s@.len() as int));
    s.substring_char(at, chars.len()).to_owned()
}

/// Whether `s` begins with `prefix`.
pub fn begins_with(s: &str, prefix: &str) -> (r: bool)
    ensures
        r == prefix@.is_prefix_of(s@),
{
    let r = stands_at(&chars_of(s), &chars_of(prefix), 0);
    assert(prefix@.is_prefix_of(s@) ==> s@.subrange(0, prefix@.len() as int) =~= prefix@);
    r
}

/// Whether `s` ends with `suffix`.
pub fn finishes_with(s: &str, suffix: &str) -> (r: bool)
    ensures
        r == suffix@.is_suffix_of(s@),
{
    let chars = chars_of(s);
    let pat = chars_of(suffix);
    if pat.len() > chars.len() {
        return false;
    }
    let at = chars.len() - pat.len();
    let r = stands_at(&chars, &pat, at);
    assert(s@.subrange(at as int, at + suffix@.len()) =~= s@.skip(at as int));
    assert(suffix@.is_suffix_of(s@) ==> s@.skip(at as int) =~= suffix@);
    r
}

/// Whether `pat` occurs somewhere in `s`.
pub open spec fn occurs(s: Seq<char>, pat: Seq<char>) -> bool {
    exists|i: int| #[trigger] occurs_at(s, pat, i)
}

/// Whether `pat` occurs in `s` at position `i`.
pub open spec fn occurs_at(s: Seq<char>, pat: Seq<char>, i: int) -> bool {
    0 <= i && i + pat.len() <= s.len() && s.subrange(i, i + pat.len()) == pat
}

/// A text occurs wherever it stands between two others.
pub proof fn lemma_occurs_between(a: Seq<char>, pat: Seq<char>, b: Seq<char>)
    ensures
        occurs(a + pat + b, pat),
{
    let s = a + pat + b;
    assert(s.subrange(a.len() as int, (a.len() + pat.len()) as int) =~= pat);
    assert(occurs_at(s, pat, a.len() as int));
}

/// What occurs in a text occurs in it with more behind it, and with more in front.
pub proof fn lemma_occurs_in_more(s: Seq<char>, t: Seq<char>, pat: Seq<char>)
    ensures
        occurs(s, pat) ==> occurs(s + t, pat),
        occurs(t, pat) ==> occurs(s + t, pat),
{
    if occurs(s, pat) {
        let i = choose|i: int| #[trigger] occurs_at(s, pat, i);
        assert((s + t).subrange(i, i + pat.len()) =~= s.subrange(i, i + pat.len()));
        assert(occurs_at(s + t, pat, i));
    }
    if occurs(t, pat) {
        let i = choose|i: int| #[trigger] occurs_at(t, pat, i);
        let k = s.len() + i;
        assert((s + t).subrange(k, k + pat.len()) =~= t.subrange(i, i + pat.len()));
        assert(occurs_at(s + t, pat, k));
    }
}

/// What occurs in a text occurs wherever that text does.
pub proof fn lemma_occurs_within(s: Seq<char>, t: Seq<char>, pat: Seq<char>)
    requires
        occurs(s, t),
        occurs(t, pat),
    ensures
        occurs(s, pat),
{
    let i = choose|i: int| #[trigger] occurs_at(s, t, i);
    let j = choose|j: int| #[trigger] occurs_at(t, pat, j);
    let (left, right) = (s.subrange(i + j, i + j + pat.len()), t.subrange(j, j + pat.len()));
    assert forall|k: int| 0 <= k < pat.len() implies #[trigger] left[k] == right[k] by {
        assert(s.subrange(i, i + t.len())[j + k] == t[j + k]);
    }
    assert(left =~= right);
    assert(occurs_at(s, pat, i + j));
}

/// Searches `s` for `pat`.
pub fn has_text(s: &str, pat: &str) -> (r: bool)
    ensures
        r == occurs(s@, pat@),
{
    let chars = chars_of(s);
    let p = chars_of(pat);
    let mut i: usize = 0;
    while i < chars.len()
        invariant
            chars@ == s@,
            p@ == pat@,
            i <= chars@.len(),
            forall|j: int| 0 <= j < i ==> !occurs_at(s@, pat@, j),
        decreases chars@.len() - i,
    {
        if stands_at(&chars, &p, i) {
            assert(occurs_at(s@, pat@, i as int));
            return true;
        }
        i += 1;
    }
    let r = stands_at(&chars, &p, i);
    assert(r == occurs_at(s@, pat@, i as int));
    assert(forall|j: int| j > i ==> !occurs_at(s@, pat@, j));
    r
}

/// Searches `s` for the character `c`.
pub fn has_char(s: &str, c: char) -> (r: bool)
    ensures
        r == s@.contains(c),
{
    let chars = chars_of(s);
    let mut i: usize = 0;
    while i < chars.len()
        invariant
            chars@ == s@,
            i <= chars@.len(),
            forall|j: int| 0 <= j < i ==> s@[j] != c,
        decreases chars@.len() - i,
    {
        if chars[i] == c {
            assert(s@[i as int] == c);
            return true;
        }
        i += 1;
    }
    false
}

} // verus!
