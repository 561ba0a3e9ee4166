//! Text helpers: character classes, trimming, decimal rendering, comparison.
//!
//! Strings are modelled as `Seq<char>`; every function below states its result
//! over that model.

use vstd::prelude::*;

verus! {

broadcast use vstd::string::group_string_axioms;

/// `String::push` appends one character.
pub assume_specification[ String::push ](s: &mut String, c: char)
    ensures
        final(s)@ == old(s)@.push(c),
;

/// Unicode general category `Cc`: the C0 block, DEL and the C1 block.
pub open spec fn spec_is_control(c: char) -> bool {
    (c as u32) <= 0x1f || 0x7f <= (c as u32) <= 0x9f
}

pub fn is_control(c: char) -> (r: bool)
    ensures
        r == spec_is_control(c),
{
    let u: u32 = c as u32;
    u <= 0x1f || (0x7f <= u && u <= 0x9f)
}

/// The Unicode `White_Space` property.
pub open spec fn spec_is_white_space(c: char) -> bool {
    let u = c as u32;
    ||| 0x09 <= u <= 0x0d
    ||| u == 0x20
    ||| u == 0x85
    ||| u == 0xa0
    ||| u == 0x1680
    ||| 0x2000 <= u <= 0x200a
    ||| u == 0x2028
    ||| u == 0x2029
    ||| u == 0x202f
    ||| u == 0x205f
    ||| u == 0x3000
}

pub fn is_white_space(c: char) -> (r: bool)
    ensures
        r == spec_is_white_space(c),
{
    let u: u32 = c as u32;
    (0x09 <= u && u <= 0x0d) || u == 0x20 || u == 0x85 || u == 0xa0 || u == 0x1680 || (0x2000 <= u
        && u <= 0x200a) || u == 0x2028 || u == 0x2029 || u == 0x202f || u == 0x205f || u == 0x3000
}

pub open spec fn spec_is_ascii_alphanumeric(c: char) -> bool {
    ||| '0' <= c <= '9'
    ||| 'A' <= c <= 'Z'
    ||| 'a' <= c <= 'z'
}

pub fn is_ascii_alphanumeric(c: char) -> (r: bool)
    ensures
        r == spec_is_ascii_alphanumeric(c),
{
    ('0' <= c && c <= '9') || ('A' <= c && c <= 'Z') || ('a' <= c && c <= 'z')
}

/// Upper case for `a..=z`, every other character unchanged.
pub open spec fn spec_ascii_upper(c: char) -> char {
    if 'a' <= c <= 'z' {
        ((c as u32 - 32) as u32) as char
    } else {
        c
    }
}

pub open spec fn upper_seq(s: Seq<char>) -> Seq<char> {
    s.map_values(|c: char| spec_ascii_upper(c))
}

/// Every character of `s`, in order.
pub fn chars_of(s: &str) -> (r: Vec<char>)
    ensures
        r@ == s@,
{
    let mut out: Vec<char> = Vec::new();
    for c in iter: s.chars()
        invariant
            out@ == s@.take(iter.index()),
            iter.seq() == s@,
    {
        out.push(c);
    }
    out
}

/// The string made of `chars`.
pub fn string_of(chars: &[char]) -> (r: String)
    ensures
        r@ == chars@,
{
    let mut out = String::new();
    for i in 0..chars.len()
        invariant
            out@ == chars@.take(i as int),
    {
        out.push(chars[i]);
        assert(chars@.take(i as int).push(chars@[i as int]) =~= chars@.take(i + 1));
    }
    assert(chars@.take(chars@.len() as int) =~= chars@);
    out
}

/// `chars[from..to]` as a string.
pub fn string_between(chars: &[char], from: usize, to: usize) -> (r: String)
    requires
        from <= to <= chars@.len(),
    ensures
        r@ == chars@.subrange(from as int, to as int),
{
    let mut out = String::new();
    let mut i: usize = from;
    while i < to
        invariant
            from <= i <= to <= chars@.len(),
            out@ == chars@.subrange(from as int, i as int),
        decreases to - i,
    {
        out.push(chars[i]);
        assert(chars@.subrange(from as int, i as int).push(chars@[i as int]) =~= chars@.subrange(
            from as int,
            i + 1,
        ));
        i += 1;
    }
    out
}

/// UTF-8 encodes distinct texts as distinct byte strings.
pub proof fn lemma_encode_utf8_injective(a: Seq<char>, b: Seq<char>)
    ensures
        vstd::utf8::encode_utf8(a) == vstd::utf8::encode_utf8(b) <==> a == b,
{
    vstd::utf8::encode_utf8_decode_utf8(a);
    vstd::utf8::encode_utf8_decode_utf8(b);
}

/// Text equality.
pub fn same_text(a: &str, b: &str) -> (r: bool)
    ensures
        r == (a@ == b@),
{
    let x = a.as_bytes();
    let y = b.as_bytes();
    proof {
        lemma_encode_utf8_injective(a@, b@);
    }
    if x.len() != y.len() {
        return false;
    }
    for i in 0..x.len()
        invariant
            x@.len() == y@.len(),
            x@.take(i as int) =~= y@.take(i as int),
            x@ == vstd::utf8::encode_utf8(a@),
            y@ == vstd::utf8::encode_utf8(b@),
            vstd::utf8::encode_utf8(a@) == vstd::utf8::encode_utf8(b@) <==> a@ == b@,
    {
        if x[i] != y[i] {
            return false;
        }
        assert(x@.take(i + 1) =~= x@.take(i as int).push(x@[i as int]));
        assert(y@.take(i + 1) =~= y@.take(i as int).push(y@[i as int]));
    }
    assert(x@.take(x@.len() as int) =~= x@);
    assert(y@.take(y@.len() as int) =~= y@);
    true
}

/// `a` followed by `b`.
pub fn concat(a: &str, b: &str) -> (r: String)
    ensures
        r@ == a@ + b@,
{
    let mut out = a.to_owned();
    out.append(b);
    out
}

pub fn ascii_upper(c: char) -> (r: char)
    ensures
        r == spec_ascii_upper(c),
{
    if 'a' <= c && c <= 'z' {
        (c as u8 - 32) as char
    } else {
        c
    }
}

/// `s` with `a..=z` in upper case.
pub fn upper_text(s: &str) -> (r: String)
    ensures
        r@ == upper_seq(s@),
{
    let chars = chars_of(s);
    let mut out = String::new();
    for i in 0..chars.len()
        invariant
            chars@ == s@,
            out@ == upper_seq(s@.take(i as int)),
    {
        out.push(ascii_upper(chars[i]));
        assert(upper_seq(s@.take(i + 1)) =~= upper_seq(s@.take(i as int)).push(
            spec_ascii_upper(s@[i as int]),
        ));
    }
    assert(s@.take(s@.len() as int) =~= s@);
    out
}

/// Leading white space removed.
pub open spec fn spec_trim_start(s: Seq<char>) -> Seq<char>
    decreases s.len(),
{
    if s.len() > 0 && spec_is_white_space(s[0]) {
        spec_trim_start(s.drop_first())
    } else {
        s
    }
}

/// Trailing white space removed.
pub open spec fn spec_trim_end(s: Seq<char>) -> Seq<char>
    decreases s.len(),
{
    if s.len() > 0 && spec_is_white_space(s.last()) {
        spec_trim_end(s.drop_last())
    } else {
        s
    }
}

/// White space removed at both ends.
pub open spec fn spec_trim(s: Seq<char>) -> Seq<char> {
    spec_trim_end(spec_trim_start(s))
}

/// `s` without its leading and trailing white space.
pub fn trim(s: &str) -> (r: String)
    ensures
        r@ == spec_trim(s@),
{
    let chars = chars_of(s);
    let mut from: usize = 0;
    assert(chars@.skip(0) =~= s@);
    while from < chars.len() && is_white_space(chars[from])
        invariant
            from <= chars@.len(),
            chars@ == s@,
            spec_trim_start(s@) == spec_trim_start(chars@.skip(from as int)),
        decreases chars@.len() - from,
    {
        assert(chars@.skip(from as int).drop_first() =~= chars@.skip(from + 1));
        from += 1;
    }
    let mut to: usize = chars.len();
    assert(chars@.subrange(from as int, to as int) =~= chars@.skip(from as int));
    while to > from && is_white_space(chars[to - 1])
        invariant
            from <= to <= chars@.len(),
            chars@ == s@,
            spec_trim(s@) == spec_trim_end(chars@.subrange(from as int, to as int)),
        decreases to,
    {
        assert(chars@.subrange(from as int, to as int).drop_last() =~= chars@.subrange(
            from as int,
            to - 1,
        ));
        to -= 1;
    }
    string_between(&chars, from, to)
}

/// The decimal digit `d` (`d < 10`) as a character.
pub open spec fn digit(d: nat) -> char {
    (48 + d) as u32 as char
}

/// The decimal numeral of `n`, without leading zeros.
pub open spec fn digits(n: nat) -> Seq<char>
    decreases n,
{
    if n < 10 {
        seq![digit(n)]
    } else {
        digits(n / 10).push(digit(n % 10))
    }
}

/// The decimal rendering of an integer, as `{}` prints it.
pub open spec fn decimal(n: int) -> Seq<char> {
    if n < 0 {
        seq!['-'] + digits((-n) as nat)
    } else {
        digits(n as nat)
    }
}

pub fn u128_text(n: u128) -> (r: String)
    ensures
        r@ == decimal(n as int),
    decreases n,
{
    let d: u8 = 48 + (n % 10) as u8;
    if n < 10 {
        let mut out = String::new();
        out.push(d as char);
        assert(out@ =~= seq![digit(n as nat)]);
        out
    } else {
        let mut out = u128_text(n / 10);
        out.push(d as char);
        out
    }
}

pub fn u64_text(n: u64) -> (r: String)
    ensures
        r@ == decimal(n as int),
{
    u128_text(n as u128)
}

pub fn i64_text(n: i64) -> (r: String)
    ensures
        r@ == decimal(n as int),
{
    if n < 0 {
        let magnitude: u64 = (-(n + 1)) as u64 + 1;
        proof {
            reveal_strlit("-");
            assert("-"@ =~= seq!['-']);
        }
        concat("-", u64_text(magnitude).as_str())
    } else {
        u64_text(n as u64)
    }
}

proof fn lemma_digits_nonempty(n: nat)
    ensures
        digits(n).len() >= 1,
        n >= 10 ==> digits(n).len() >= 2,
    decreases n,
{
    if n >= 10 {
        lemma_digits_nonempty(n / 10);
    }
}

/// Distinct numbers have distinct numerals.
pub proof fn lemma_digits_injective(a: nat, b: nat)
    requires
        digits(a) == digits(b),
    ensures
        a == b,
    decreases a,
{
    lemma_digits_nonempty(a);
    lemma_digits_nonempty(b);
    assert(digits(a).last() == digit(a % 10)) by {
        if a < 10 {
            assert(a % 10 == a);
        }
    }
    assert(digits(b).last() == digit(b % 10)) by {
        if b < 10 {
            assert(b % 10 == b);
        }
    }
    assert(digits(a).last() as u32 == 48 + a % 10);
    assert(digits(b).last() as u32 == 48 + b % 10);
    if a >= 10 {
        assert(digits(a).drop_last() =~= digits(a / 10));
        assert(digits(b).drop_last() =~= digits(b / 10));
        lemma_digits_injective(a / 10, b / 10);
    }
}

/// A numeral holds decimal digits only.
pub proof fn lemma_digits_are_digits(n: nat)
    ensures
        forall|i: int| 0 <= i < digits(n).len() ==> '0' <= #[trigger] digits(n)[i] <= '9',
    decreases n,
{
    assert(digit(n % 10) as u32 == 48 + n % 10);
    if n >= 10 {
        lemma_digits_are_digits(n / 10);
        assert forall|i: int| 0 <= i < digits(n).len() implies '0' <= #[trigger] digits(
            n,
        )[i] <= '9' by {
            if i < digits(n / 10).len() {
                assert(digits(n)[i] == digits(n / 10)[i]);
            }
        }
    } else {
        assert(n % 10 == n);
    }
}

/// Distinct integers have distinct decimal renderings.
pub proof fn lemma_decimal_injective(a: int, b: int)
    requires
        decimal(a) == decimal(b),
    ensures
        a == b,
{
    if a < 0 && b < 0 {
        assert(digits((-a) as nat) =~= decimal(a).skip(1));
        assert(digits((-b) as nat) =~= decimal(b).skip(1));
        lemma_digits_injective((-a) as nat, (-b) as nat);
    } else if a >= 0 && b >= 0 {
        lemma_digits_injective(a as nat, b as nat);
    } else {
        let p: nat = if a >= 0 { a as nat } else { b as nat };
        lemma_digits_are_digits(p);
        lemma_digits_nonempty(p);
        assert('0' <= digits(p)[0] <= '9');
        assert(decimal(a)[0] == decimal(b)[0]);
    }
}

/// Strict lexicographic order by code point, which is the order of `str`.
pub open spec fn text_lt(a: Seq<char>, b: Seq<char>) -> bool
    decreases a.len(),
{
    if b.len() == 0 {
        false
    } else if a.len() == 0 {
        true
    } else if a[0] != b[0] {
        a[0] < b[0]
    } else {
        text_lt(a.drop_first(), b.drop_first())
    }
}

pub proof fn lemma_text_lt_trans(a: Seq<char>, b: Seq<char>, c: Seq<char>)
    requires
        text_lt(a, b),
        text_lt(b, c),
    ensures
        text_lt(a, c),
    decreases a.len(),
{
    if a.len() > 0 && b.len() > 0 && c.len() > 0 && a[0] == b[0] && b[0] == c[0] {
        lemma_text_lt_trans(a.drop_first(), b.drop_first(), c.drop_first());
    }
}

pub proof fn lemma_text_lt_irreflexive(a: Seq<char>)
    ensures
        !text_lt(a, a),
    decreases a.len(),
{
    if a.len() > 0 {
        lemma_text_lt_irreflexive(a.drop_first());
    }
}

pub proof fn lemma_text_lt_total(a: Seq<char>, b: Seq<char>)
    ensures
        text_lt(a, b) || text_lt(b, a) || a == b,
    decreases a.len(),
{
    if a.len() == 0 && b.len() == 0 {
        assert(a =~= b);
    } else if a.len() > 0 && b.len() > 0 && a[0] == b[0] {
        lemma_text_lt_total(a.drop_first(), b.drop_first());
        if a.drop_first() == b.drop_first() {
            assert(a =~= seq![a[0]] + a.drop_first());
            assert(b =~= seq![b[0]] + b.drop_first());
        }
    }
}

/// Whether `a` comes strictly before `b`.
pub fn text_before(a: &str, b: &str) -> (r: bool)
    ensures
        r == text_lt(a@, b@),
{
    let x = chars_of(a);
    let y = chars_of(b);
    let mut i: usize = 0;
    assert(x@.skip(0) =~= a@);
    assert(y@.skip(0) =~= b@);
    while i < x.len() && i < y.len()
        invariant
            i <= x@.len(),
            i <= y@.len(),
            text_lt(a@, b@) == text_lt(x@.skip(i as int), y@.skip(i as int)),
        decreases x@.len() - i,
    {
        assert(x@.skip(i as int)[0] == x@[i as int]);
        assert(y@.skip(i as int)[0] == y@[i as int]);
        if x[i] != y[i] {
            return x[i] < y[i];
        }
        assert(x@.skip(i as int).drop_first() =~= x@.skip(i + 1));
        assert(y@.skip(i as int).drop_first() =~= y@.skip(i + 1));
        i += 1;
    }
    i < y.len()
}

/// The views of a list of strings.
pub open spec fn texts(list: Seq<String>) -> Seq<Seq<char>> {
    list.map_values(|s: String| s@)
}

/// The view of an optional string.
pub open spec fn text_option(s: Option<String>) -> Option<Seq<char>> {
    match s {
        Some(t) => Some(t@),
        None => None,
    }
}

/// A copy of a list of strings.
pub fn copy_texts(list: &Vec<String>) -> (r: Vec<String>)
    ensures
        texts(r@) == texts(list@),
{
    let mut out: Vec<String> = Vec::new();
    let mut i: usize = 0;
    while i < list.len()
        invariant
            i <= list.len(),
            texts(out@) =~= texts(list@).take(i as int),
        decreases list.len() - i,
    {
        let ghost before = out@;
        let item = list[i].clone();
        out.push(item);
        assert(texts(out@) =~= texts(before).push(item@));
        assert(texts(list@).take(i + 1) =~= texts(list@).take(i as int).push(item@));
        i = i + 1;
    }
    assert(texts(out@) =~= texts(list@));
    out
}

/// A copy of an optional string.
pub fn copy_option(s: &Option<String>) -> (r: Option<String>)
    ensures
        text_option(r) == text_option(*s),
{
    match s {
        Some(t) => Some(t.clone()),
        None => None,
    }
}

/// White space: the tab and what else breaks a line, the space, and the other
/// blanks of Unicode.
pub open spec fn blank(c: char) -> bool {
    let u = c as u32;
    ||| u == 9 || u == 10 || u == 11 || u == 12 || u == 13 || u == 133 || u == 8232 || u == 8233
    ||| u == 32 || u == 160 || u == 5760 || 8192 <= u <= 8202 || u == 8239 || u == 8287 || u == 12288
}

/// Trimming takes white space off both ends and leaves what is between as it is;
/// of a text of white space nothing is left.
pub proof fn law_trimming_keeps_what_is_between(a: Seq<char>, m: Seq<char>, b: Seq<char>)
    requires
        forall|i: int| 0 <= i < a.len() ==> blank(#[trigger] a[i]),
        forall|i: int| 0 <= i < b.len() ==> blank(#[trigger] b[i]),
    ensures
        m.len() > 0 && !blank(m[0]) && !blank(m.last()) ==> spec_trim(a + m + b) == m,
        spec_trim(a).len() == 0,
{
    lemma_trim_start(a, m + b);
    assert(a + (m + b) =~= a + m + b);
    if m.len() > 0 && !blank(m[0]) && !blank(m.last()) {
        assert((m + b)[0] == m[0]);
        lemma_trim_end(m, b);
        assert(spec_trim_end(m) == m);
    }
    lemma_trim_start(a, Seq::empty());
    assert(a + Seq::<char>::empty() =~= a);
}

proof fn lemma_trim_start(a: Seq<char>, t: Seq<char>)
    requires
        forall|i: int| 0 <= i < a.len() ==> blank(#[trigger] a[i]),
    ensures
        spec_trim_start(a + t) == spec_trim_start(t),
    decreases a.len(),
{
    if a.len() == 0 {
        assert(a + t =~= t);
    } else {
        let rest = a.drop_first();
        assert forall|i: int| 0 <= i < rest.len() implies blank(#[trigger] rest[i]) by {
            assert(rest[i] == a[i + 1]);
        }
        lemma_trim_start(rest, t);
        assert(blank(a[0]));
        assert((a + t)[0] == a[0]);
        assert((a + t).drop_first() =~= rest + t);
    }
}

proof fn lemma_trim_end(t: Seq<char>, b: Seq<char>)
    requires
        forall|i: int| 0 <= i < b.len() ==> blank(#[trigger] b[i]),
    ensures
        spec_trim_end(t + b) == spec_trim_end(t),
    decreases b.len(),
{
    if b.len() == 0 {
        assert(t + b =~= t);
    } else {
        let rest = b.drop_last();
        assert forall|i: int| 0 <= i < rest.len() implies blank(#[trigger] rest[i]) by {
            assert(rest[i] == b[i]);
        }
        lemma_trim_end(t, rest);
        assert(blank(b[b.len() - 1]));
        assert((t + b).last() == b[b.len() - 1]);
        assert((t + b).drop_last() =~= t + rest);
    }
}

/// The number that a text of decimal digits stands for.
pub open spec fn value_of(s: Seq<char>) -> int
    decreases s.len(),
{
    if s.len() == 0 {
        0
    } else {
        10 * value_of(s.drop_last()) + (s.last() as u32 - 48)
    }
}

/// The rendering of a number reads back as that number: it is made of digits,
/// has no leading zero but for zero itself, and a minus sign goes before the
/// digits of a negative one.
pub proof fn law_decimals_read_back(n: nat)
    ensures
        value_of(decimal(n as int)) == n,
        decimal(n as int).len() > 0,
        forall|i: int| 0 <= i < decimal(n as int).len() ==> '0' <= #[trigger] decimal(n as int)[i] <= '9',
        decimal(n as int).len() > 1 ==> decimal(n as int)[0] != '0',
        n > 0 ==> decimal(-(n as int)) == seq!['-'] + decimal(n as int),
{
    lemma_digits_read_back(n);
}

proof fn lemma_digits_read_back(n: nat)
    ensures
        value_of(digits(n)) == n,
        digits(n).len() > 0,
        forall|i: int| 0 <= i < digits(n).len() ==> '0' <= #[trigger] digits(n)[i] <= '9',
        n > 0 ==> digits(n)[0] != '0',
    decreases n,
{
    let d = digit(n % 10);
    assert((d as u32) == 48 + n % 10);
    if n < 10 {
        assert(digits(n) =~= seq![d]);
        assert(seq![d].drop_last() =~= Seq::empty());
        assert(value_of(Seq::empty()) == 0);
        assert(value_of(seq![d]) == 10 * value_of(seq![d].drop_last()) + (d as u32 - 48));
    } else {
        lemma_digits_read_back(n / 10);
        let head = digits(n / 10);
        assert(digits(n) == head.push(d));
        assert(head.push(d).drop_last() =~= head);
        assert(n == 10 * (n / 10) + n % 10);
        assert forall|i: int| 0 <= i < digits(n).len() implies '0' <= #[trigger] digits(n)[i]
            <= '9' by {
            if i < head.len() {
                assert(digits(n)[i] == head[i]);
            }
        }
    }
}

/// Upper case changes the letters `a` to `z`, each into its own capital, and
/// nothing else.
pub proof fn law_upper_case_changes_small_letters(s: Seq<char>, i: int)
    requires
        0 <= i < s.len(),
    ensures
        upper_seq(s).len() == s.len(),
        'a' <= s[i] <= 'z' ==> upper_seq(s)[i] as u32 == s[i] as u32 - ('a' as u32 - 'A' as u32),
        !('a' <= s[i] <= 'z') ==> upper_seq(s)[i] == s[i],
{
}

/// A text comes before another exactly where it is a proper beginning of it, or
/// has the lower code point at the first place where the two differ.
pub proof fn law_texts_are_ordered_by_their_first_difference(a: Seq<char>, b: Seq<char>, n: int)
    requires
        0 <= n <= a.len(),
        n <= b.len(),
        a.take(n) == b.take(n),
        n < a.len() && n < b.len() ==> a[n] != b[n],
    ensures
        n == a.len() ==> text_lt(a, b) == (n < b.len()),
        n == b.len() ==> !text_lt(a, b),
        n < a.len() && n < b.len() ==> text_lt(a, b) == (a[n] < b[n]),
    decreases n,
{
    if n > 0 {
        assert(a.take(n)[0] == a[0] && b.take(n)[0] == b[0]);
        let x = a.drop_first();
        let y = b.drop_first();
        assert forall|i: int| 0 <= i < n - 1 implies x[i] == y[i] by {
            assert(a.take(n)[i + 1] == a[i + 1] && b.take(n)[i + 1] == b[i + 1]);
        }
        assert(x.take(n - 1) =~= y.take(n - 1));
        law_texts_are_ordered_by_their_first_difference(x, y, n - 1);
    }
}

/// A text trims to nothing exactly where all of it is white space.
pub proof fn law_only_white_space_trims_to_nothing(s: Seq<char>)
    ensures
        spec_trim(s).len() == 0 <==> forall|i: int| 0 <= i < s.len() ==> blank(#[trigger] s[i]),
{
    if forall|i: int| 0 <= i < s.len() ==> blank(#[trigger] s[i]) {
        law_trimming_keeps_what_is_between(s, Seq::empty(), Seq::empty());
    } else {
        let i = choose|i: int| 0 <= i < s.len() && !blank(#[trigger] s[i]);
        lemma_trim_start_leaves(s, i);
        let t = spec_trim_start(s);
        let j = choose|j: int| 0 <= j < t.len() && !blank(#[trigger] t[j]);
        lemma_trim_end_leaves(t, j);
    }
}

proof fn lemma_trim_start_leaves(s: Seq<char>, i: int)
    requires
        0 <= i < s.len(),
        !blank(s[i]),
    ensures
        exists|j: int| 0 <= j < spec_trim_start(s).len() && !blank(#[trigger] spec_trim_start(s)[j]),
    decreases s.len(),
{
    if spec_is_white_space(s[0]) {
        assert(s.drop_first()[i - 1] == s[i]);
        lemma_trim_start_leaves(s.drop_first(), i - 1);
        assert(spec_trim_start(s) == spec_trim_start(s.drop_first()));
    } else {
        assert(spec_trim_start(s)[i] == s[i]);
    }
}

proof fn lemma_trim_end_leaves(s: Seq<char>, i: int)
    requires
        0 <= i < s.len(),
        !blank(s[i]),
    ensures
        spec_trim_end(s).len() > 0,
    decreases s.len(),
{
    if spec_is_white_space(s.last()) {
        assert(s.drop_last()[i] == s[i]);
        lemma_trim_end_leaves(s.drop_last(), i);
    }
}

/// `w` spells `word`, a text of capitals, with a small letter in place of any of
/// them.
pub open spec fn spelled(w: Seq<char>, word: Seq<char>) -> bool {
    &&& w.len() == word.len()
    &&& forall|i: int|
        0 <= i < w.len() ==> #[trigger] w[i] == word[i] || ('a' <= w[i] <= 'z' && ((w[i] as u32
            - 32) as u32) as char == word[i])
}

/// Upper case makes a text of capitals of exactly those that spell it.
pub proof fn law_upper_case_tells_spellings(w: Seq<char>, word: Seq<char>)
    requires
        forall|i: int| 0 <= i < word.len() ==> 'A' <= #[trigger] word[i] <= 'Z',
    ensures
        upper_seq(w) == word <==> spelled(w, word),
{
    if upper_seq(w) == word {
        assert forall|i: int| 0 <= i < w.len() implies #[trigger] w[i] == word[i] || ('a' <= w[i]
            <= 'z' && ((w[i] as u32 - 32) as u32) as char == word[i]) by {
            assert(upper_seq(w)[i] == spec_ascii_upper(w[i]));
        }
    }
    if spelled(w, word) {
        assert forall|i: int| 0 <= i < w.len() implies upper_seq(w)[i] == word[i] by {
            assert(upper_seq(w)[i] == spec_ascii_upper(w[i]));
            assert('A' <= word[i] <= 'Z');
            assert(w[i] == word[i] || ('a' <= w[i] <= 'z' && ((w[i] as u32 - 32) as u32) as char
                == word[i]));
        }
        assert(upper_seq(w) =~= word);
    }
}

/// A list of strings is seen as their texts, all of them and in order; a string
/// that may be absent as its text, where it is there.
pub proof fn law_strings_are_seen_as_their_text(list: Seq<String>, i: int, s: String)
    ensures
        texts(list).len() == list.len(),
        0 <= i < list.len() ==> texts(list)[i] == list[i]@,
        text_option(Some(s)) == Some(s@),
        text_option(None) is None,
{
}

/// Texts are put together as they are, equal only where they are the same, and
/// numbers are written in decimal.
pub proof fn law_texts_are_handled_as_they_are(
    a: &str,
    b: &str,
    both: String,
    same: bool,
    n: i64,
    number: String,
    m: u64,
    count: String,
)
    requires
        call_ensures(concat, (a, b), both),
        call_ensures(same_text, (a, b), same),
        call_ensures(i64_text, (n,), number),
        call_ensures(u64_text, (m,), count),
    ensures
        both@ == a@ + b@,
        same <==> a@ == b@,
        number@ == decimal(n as int),
        count@ == decimal(m as int),
        value_of(count@) == m,
        n >= 0 ==> value_of(number@) == n,
        n < 0 ==> number@ == seq!['-'] + decimal(-(n as int)),
{
    law_decimals_read_back(m as nat);
    if n >= 0 {
        law_decimals_read_back(n as nat);
    } else {
        law_decimals_read_back((-(n as int)) as nat);
    }
}

} // verus!
