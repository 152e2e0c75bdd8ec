//! Text: equality, byte order, trimming and decimal digits.

use vstd::prelude::*;
use vstd::string::StrSliceExecFns;
use vstd::utf8::encode_utf8;

verus! {

/// Whether two texts are equal.
pub fn same_text(a: &str, b: &str) -> (same: bool)
    ensures
        same == (a@ == b@),
{
    let x: &[u8] = a.as_bytes();
    let y: &[u8] = b.as_bytes();
    proof {
        vstd::utf8::encode_utf8_decode_utf8(a@);
        vstd::utf8::encode_utf8_decode_utf8(b@);
    }
    if x.len() != y.len() {
        return false;
    }
    let mut i: usize = 0;
    while i < x.len()
        invariant
            x@.len() == y@.len(),
            i <= x@.len(),
            forall|j: int| 0 <= j < i ==> x@[j] == y@[j],
            x@ == encode_utf8(a@),
            y@ == encode_utf8(b@),
        decreases x.len() - i,
    {
        if x[i] != y[i] {
            return false;
        }
        i = i + 1;
    }
    assert(x@ =~= y@);
    true
}

/// Byte-wise lexicographic order.
pub open spec fn bytes_less(a: Seq<u8>, b: Seq<u8>) -> bool
    decreases a.len(),
{
    if b.len() == 0 {
        false
    } else if a.len() == 0 {
        true
    } else if a[0] != b[0] {
        a[0] < b[0]
    } else {
        bytes_less(a.drop_first(), b.drop_first())
    }
}

/// The order of texts: by their UTF-8 bytes.
pub open spec fn text_less(a: Seq<char>, b: Seq<char>) -> bool {
    bytes_less(encode_utf8(a), encode_utf8(b))
}

/// Whether `a` stands before `b` in byte order.
pub fn text_before(a: &str, b: &str) -> (less: bool)
    ensures
        less == text_less(a@, b@),
{
    let x: &[u8] = a.as_bytes();
    let y: &[u8] = b.as_bytes();
    let mut i: usize = 0;
    assert(x@.skip(0) =~= x@);
    assert(y@.skip(0) =~= y@);
    while i < x.len() && i < y.len()
        invariant
            i <= x@.len(),
            i <= y@.len(),
            x@ == encode_utf8(a@),
            y@ == encode_utf8(b@),
            bytes_less(x@, y@) == bytes_less(x@.skip(i as int), y@.skip(i as int)),
        decreases x.len() - i,
    {
        if x[i] != y[i] {
            return x[i] < y[i];
        }
        assert(x@.skip(i as int).drop_first() =~= x@.skip(i + 1));
        assert(y@.skip(i as int).drop_first() =~= y@.skip(i + 1));
        i = i + 1;
    }
    i < y.len()
}

pub proof fn lemma_bytes_less_irreflexive(a: Seq<u8>)
    ensures
        !bytes_less(a, a),
    decreases a.len(),
{
    if a.len() > 0 {
        lemma_bytes_less_irreflexive(a.drop_first());
    }
}

pub proof fn lemma_bytes_less_transitive(a: Seq<u8>, b: Seq<u8>, c: Seq<u8>)
    requires
        bytes_less(a, b),
        bytes_less(b, c),
    ensures
        bytes_less(a, c),
    decreases a.len(),
{
    if a.len() > 0 && b.len() > 0 && c.len() > 0 && a[0] == b[0] && b[0] == c[0] {
        lemma_bytes_less_transitive(a.drop_first(), b.drop_first(), c.drop_first());
    }
}

pub proof fn lemma_bytes_less_total(a: Seq<u8>, b: Seq<u8>)
    ensures
        a == b || bytes_less(a, b) || bytes_less(b, a),
    decreases a.len(),
{
    if a.len() > 0 && b.len() > 0 && a[0] == b[0] {
        lemma_bytes_less_total(a.drop_first(), b.drop_first());
        if a.drop_first() == b.drop_first() {
            assert(a =~= seq![a[0]] + a.drop_first());
            assert(b =~= seq![b[0]] + b.drop_first());
        }
    } else if a.len() == 0 && b.len() == 0 {
        assert(a =~= b);
    }
}

/// Byte order on texts is a strict total order.
pub proof fn lemma_text_order(a: Seq<char>, b: Seq<char>, c: Seq<char>)
    ensures
        !text_less(a, a),
        a == b || text_less(a, b) || text_less(b, a),
        text_less(a, b) && text_less(b, c) ==> text_less(a, c),
        !(text_less(a, b) && text_less(b, a)),
{
    lemma_bytes_less_irreflexive(encode_utf8(a));
    lemma_bytes_less_total(encode_utf8(a), encode_utf8(b));
    vstd::utf8::encode_utf8_decode_utf8(a);
    vstd::utf8::encode_utf8_decode_utf8(b);
    if text_less(a, b) && text_less(b, c) {
        lemma_bytes_less_transitive(encode_utf8(a), encode_utf8(b), encode_utf8(c));
    }
    if text_less(a, b) && text_less(b, a) {
        lemma_bytes_less_transitive(encode_utf8(a), encode_utf8(b), encode_utf8(a));
    }
}

/// The characters with the Unicode property White_Space.
pub open spec fn whitespace(c: char) -> bool {
    let n = c as int;
    ||| 0x09 <= n <= 0x0d
    ||| n == 0x20
    ||| n == 0x85
    ||| n == 0xa0
    ||| n == 0x1680
    ||| 0x2000 <= n <= 0x200a
    ||| n == 0x2028
    ||| n == 0x2029
    ||| n == 0x202f
    ||| n == 0x205f
    ||| n == 0x3000
}

fn is_whitespace(c: char) -> (yes: bool)
    ensures
        yes == whitespace(c),
{
    let n: u32 = c as u32;
    (0x09 <= n && n <= 0x0d) || n == 0x20 || n == 0x85 || n == 0xa0 || n == 0x1680 || (0x2000 <= n
        && n <= 0x200a) || n == 0x2028 || n == 0x2029 || n == 0x202f || n == 0x205f || n == 0x3000
}

/// A text without its leading whitespace.
pub open spec fn trim_front(s: Seq<char>) -> Seq<char>
    decreases s.len(),
{
    if s.len() > 0 && whitespace(s[0]) {
        trim_front(s.drop_first())
    } else {
        s
    }
}

/// A text without its trailing whitespace.
pub open spec fn trim_back(s: Seq<char>) -> Seq<char>
    decreases s.len(),
{
    if s.len() > 0 && whitespace(s.last()) {
        trim_back(s.drop_last())
    } else {
        s
    }
}

/// A text without whitespace at either end.
pub open spec fn trimmed(s: Seq<char>) -> Seq<char> {
    trim_back(trim_front(s))
}

/// Removes whitespace at both ends.
pub fn trim_text<'a>(s: &'a str) -> (out: &'a str)
    ensures
        out@ == trimmed(s@),
{
    let n: usize = s.unicode_len();
    let mut from: usize = 0;
    assert(s@.subrange(0, n as int) =~= s@);
    while from < n && is_whitespace(s.get_char(from))
        invariant
            from <= n,
            n == s@.len(),
            trim_front(s@) == trim_front(s@.subrange(from as int, n as int)),
        decreases n - from,
    {
        assert(s@.subrange(from as int, n as int).drop_first() =~= s@.subrange(
            from + 1,
            n as int,
        ));
        from = from + 1;
    }
    let ghost front = s@.subrange(from as int, n as int);
    assert(trim_front(s@) == front);
    let mut to: usize = n;
    while from < to && is_whitespace(s.get_char(to - 1))
        invariant
            from <= to <= n,
            n == s@.len(),
            front == s@.subrange(from as int, n as int),
            trim_back(front) == trim_back(s@.subrange(from as int, to as int)),
        decreases to - from,
    {
        assert(s@.subrange(from as int, to as int).drop_last() =~= s@.subrange(
            from as int,
            to - 1,
        ));
        to = to - 1;
    }
    s.substring_char(from, to)
}

/// The decimal digits of a number.
pub open spec fn decimal(n: nat) -> Seq<char>
    decreases n,
{
    if n < 10 {
        seq![digit(n)]
    } else {
        decimal(n / 10).push(digit(n % 10))
    }
}

/// The character of a decimal digit.
pub open spec fn digit(n: nat) -> char {
    (n + 48) as char
}

fn digit_text(n: u64) -> (s: &'static str)
    requires
        n < 10,
    ensures
        s@ == seq![digit(n as nat)],
{
    proof {
        reveal_strlit("0");
        reveal_strlit("1");
        reveal_strlit("2");
        reveal_strlit("3");
        reveal_strlit("4");
        reveal_strlit("5");
        reveal_strlit("6");
        reveal_strlit("7");
        reveal_strlit("8");
        reveal_strlit("9");
        assert("0"@ =~= seq!['0']);
        assert("1"@ =~= seq!['1']);
        assert("2"@ =~= seq!['2']);
        assert("3"@ =~= seq!['3']);
        assert("4"@ =~= seq!['4']);
        assert("5"@ =~= seq!['5']);
        assert("6"@ =~= seq!['6']);
        assert("7"@ =~= seq!['7']);
        assert("8"@ =~= seq!['8']);
        assert("9"@ =~= seq!['9']);
    }
    if n == 0 {
        "0"
    } else if n == 1 {
        "1"
    } else if n == 2 {
        "2"
    } else if n == 3 {
        "3"
    } else if n == 4 {
        "4"
    } else if n == 5 {
        "5"
    } else if n == 6 {
        "6"
    } else if n == 7 {
        "7"
    } else if n == 8 {
        "8"
    } else {
        "9"
    }
}

/// Writes a number in decimal.
pub fn decimal_text(n: u64) -> (s: String)
    ensures
        s@ == decimal(n as nat),
    decreases n,
{
    if n < 10 {
        digit_text(n).to_owned()
    } else {
        let mut s = decimal_text(n / 10);
        s.append(digit_text(n % 10));
        assert(s@ =~= decimal((n / 10) as nat).push(digit((n % 10) as nat)));
        s
    }
}

/// Two texts one after the other.
pub fn joined(a: &str, b: &str) -> (s: String)
    ensures
        s@ == a@ + b@,
{
    let mut s = a.to_owned();
    s.append(b);
    s
}

/// Whether a text holds a character.
pub fn has_char(s: &str, c: char) -> (yes: bool)
    ensures
        yes == s@.contains(c),
{
    let n: usize = s.unicode_len();
    let mut i: usize = 0;
    while i < n
        invariant
            i <= n,
            n == s@.len(),
            forall|j: int| 0 <= j < i ==> s@[j] != c,
        decreases n - i,
    {
        if s.get_char(i) == c {
            assert(s@[i as int] == c);
            return true;
        }
        i = i + 1;
    }
    false
}

/// The last decimal digits of a number, as many as asked for.
pub open spec fn last_digits(n: nat, width: nat) -> Seq<char>
    decreases width,
{
    if width == 0 {
        Seq::empty()
    } else {
        last_digits(n / 10, (width - 1) as nat).push(digit(n % 10))
    }
}

/// Writes the last decimal digits of a number, with zeros in front.
pub fn padded(n: u64, width: usize) -> (s: String)
    ensures
        s@ == last_digits(n as nat, width as nat),
    decreases width,
{
    if width == 0 {
        return String::new();
    }
    let mut s = padded(n / 10, width - 1);
    s.append(digit_text(n % 10));
    assert(s@ =~= last_digits((n / 10) as nat, (width - 1) as nat).push(digit((n % 10) as nat)));
    s
}

/// Whether a text begins with another.
pub open spec fn begins_with(s: Seq<char>, prefix: Seq<char>) -> bool {
    prefix.len() <= s.len() && s.take(prefix.len() as int) == prefix
}

/// Whether a text begins with another.
pub fn has_prefix(s: &str, prefix: &str) -> (yes: bool)
    ensures
        yes == begins_with(s@, prefix@),
{
    let n: usize = prefix.unicode_len();
    if s.unicode_len() < n {
        return false;
    }
    let mut i: usize = 0;
    while i < n
        invariant
            i <= n,
            n == prefix@.len(),
            n <= s@.len(),
            forall|j: int| 0 <= j < i ==> s@[j] == prefix@[j],
        decreases n - i,
    {
        if s.get_char(i) != prefix.get_char(i) {
            assert(s@.take(n as int)[i as int] != prefix@[i as int]);
            return false;
        }
        i = i + 1;
    }
    assert(s@.take(n as int) =~= prefix@);
    true
}

/// A number in decimal, with its sign.
pub open spec fn signed_decimal(n: int) -> Seq<char> {
    if n < 0 {
        "-"@ + decimal((-n) as nat)
    } else {
        decimal(n as nat)
    }
}

/// Writes a number in decimal, with its sign.
pub fn signed_text(n: i64) -> (s: String)
    ensures
        s@ == signed_decimal(n as int),
{
    if n < 0 {
        let below: u64 = (-(n + 1)) as u64;
        joined("-", decimal_text(below + 1).as_str())
    } else {
        decimal_text(n as u64)
    }
}

/// How many characters of a text stand before the first that is one of two.
pub open spec fn length_before(s: Seq<char>, a: char, b: char) -> nat
    decreases s.len(),
{
    if s.len() == 0 || s[0] == a || s[0] == b {
        0
    } else {
        1 + length_before(s.drop_first(), a, b)
    }
}

/// The text before the first character that is one of two.
pub open spec fn before_first(s: Seq<char>, a: char, b: char) -> Seq<char> {
    s.take(length_before(s, a, b) as int)
}

/// Finds the first character that is one of two, or the end.
pub fn find_first(s: &str, a: char, b: char) -> (n: usize)
    ensures
        n == length_before(s@, a, b),
        n <= s@.len(),
{
    let len: usize = s.unicode_len();
    let mut i: usize = 0;
    assert(s@.skip(0) =~= s@);
    while i < len
        invariant
            i <= len,
            len == s@.len(),
            length_before(s@, a, b) == i + length_before(s@.skip(i as int), a, b),
        decreases len - i,
    {
        assert(s@.skip(i as int)[0] == s@[i as int]);
        assert(s@.skip(i as int).drop_first() =~= s@.skip(i + 1));
        let c = s.get_char(i);
        if c == a || c == b {
            return i;
        }
        i = i + 1;
    }
    assert(s@.skip(len as int) =~= Seq::empty());
    i
}

/// Where a text goes on with one of two characters, what stands before it is unchanged.
pub proof fn lemma_length_before_goes_on(s: Seq<char>, more: Seq<char>, a: char, b: char)
    requires
        more.len() == 0 || more[0] == a || more[0] == b,
    ensures
        length_before(s + more, a, b) == length_before(s, a, b),
        length_before(s, a, b) <= s.len(),
        (forall|i: int| 0 <= i < s.len() ==> #[trigger] s[i] != a && s[i] != b)
            ==> length_before(s, a, b) == s.len(),
    decreases s.len(),
{
    if s.len() > 0 && s[0] != a && s[0] != b {
        assert((s + more).drop_first() =~= s.drop_first() + more);
        lemma_length_before_goes_on(s.drop_first(), more, a, b);
        if forall|i: int| 0 <= i < s.len() ==> #[trigger] s[i] != a && s[i] != b {
            assert forall|i: int| 0 <= i < s.len() - 1 implies #[trigger] s.drop_first()[i] != a
                && s.drop_first()[i] != b by {
                assert(s.drop_first()[i] == s[i + 1]);
            }
        }
    } else {
        assert(s.len() == 0 ==> s + more =~= more);
    }
}

/// The text behind the last of a character; all of it where there is none.
pub open spec fn behind_last(s: Seq<char>, c: char) -> Seq<char>
    decreases s.len(),
{
    if s.contains(c) {
        behind_last(s.drop_first(), c)
    } else {
        s
    }
}

/// What is behind the last of a character holds it no more.
pub proof fn lemma_behind_last(s: Seq<char>, n: int, c: char)
    requires
        0 <= n <= s.len(),
        n > 0 ==> s[n - 1] == c,
        !s.skip(n).contains(c),
    ensures
        behind_last(s, c) == s.skip(n),
    decreases s.len(),
{
    if n == 0 {
        assert(s.skip(0) =~= s);
    } else {
        assert(s.contains(s[n - 1]));
        let rest = s.drop_first();
        assert(rest.skip(n - 1) =~= s.skip(n));
        if n > 1 {
            assert(rest[n - 2] == s[n - 1]);
        }
        lemma_behind_last(rest, n - 1, c);
    }
}

/// The text behind the last of a character.
pub fn text_behind_last<'a>(s: &'a str, c: char) -> (out: &'a str)
    ensures
        out@ == behind_last(s@, c),
{
    let len: usize = s.unicode_len();
    let mut n: usize = len;
    while n > 0 && s.get_char(n - 1) != c
        invariant
            n <= len,
            len == s@.len(),
            forall|i: int| n <= i < len ==> s@[i] != c,
        decreases n,
    {
        n = n - 1;
    }
    proof {
        assert(s@.subrange(n as int, len as int) =~= s@.skip(n as int));
        assert forall|i: int| 0 <= i < s@.skip(n as int).len() implies s@.skip(n as int)[i] != c by {
            assert(s@.skip(n as int)[i] == s@[n + i]);
        }
        lemma_behind_last(s@, n as int, c);
    }
    s.substring_char(n, len)
}

/// A text without the characters of one kind at its end.
pub open spec fn trimmed_end(s: Seq<char>, c: char) -> Seq<char>
    decreases s.len(),
{
    if s.len() > 0 && s.last() == c {
        trimmed_end(s.drop_last(), c)
    } else {
        s
    }
}

/// A text without the characters of one kind at its end.
pub fn trim_end_of<'a>(s: &'a str, c: char) -> (out: &'a str)
    ensures
        out@ == trimmed_end(s@, c),
{
    let mut n: usize = s.unicode_len();
    assert(s@.take(s@.len() as int) =~= s@);
    while n > 0 && s.get_char(n - 1) == c
        invariant
            n <= s@.len(),
            trimmed_end(s@, c) == trimmed_end(s@.take(n as int), c),
        decreases n,
    {
        assert(s@.take(n as int).drop_last() =~= s@.take(n - 1));
        n = n - 1;
    }
    assert(s@.subrange(0, n as int) =~= s@.take(n as int));
    s.substring_char(0, n)
}

/// Whether a text is nothing but white space.
pub open spec fn blank(s: Seq<char>) -> bool {
    forall|i: int| 0 <= i < s.len() ==> whitespace(#[trigger] s[i])
}

/// Whether a text is some white space, then the core, then some white space.
pub open spec fn surrounded(s: Seq<char>, front: Seq<char>, core: Seq<char>, back: Seq<char>) -> bool {
    &&& s == front + core + back
    &&& blank(front)
    &&& blank(back)
}

proof fn lemma_trim_front(s: Seq<char>) -> (front: Seq<char>)
    ensures
        s == front + trim_front(s),
        blank(front),
        trim_front(s).len() > 0 ==> !whitespace(trim_front(s)[0]),
    decreases s.len(),
{
    if s.len() > 0 && whitespace(s[0]) {
        let rest = lemma_trim_front(s.drop_first());
        let front = seq![s[0]] + rest;
        assert(s =~= seq![s[0]] + s.drop_first());
        assert(s =~= front + trim_front(s));
        front
    } else {
        assert(s =~= Seq::<char>::empty() + s);
        Seq::empty()
    }
}

proof fn lemma_trim_back(s: Seq<char>) -> (back: Seq<char>)
    ensures
        s == trim_back(s) + back,
        blank(back),
        trim_back(s).len() > 0 ==> !whitespace(trim_back(s).last()),
    decreases s.len(),
{
    if s.len() > 0 && whitespace(s.last()) {
        let rest = lemma_trim_back(s.drop_last());
        let back = rest.push(s.last());
        assert(s =~= s.drop_last().push(s.last()));
        assert(s =~= trim_back(s) + back);
        back
    } else {
        assert(s =~= s + Seq::<char>::empty());
        Seq::empty()
    }
}

/// Trimming takes white space off both ends and nothing else: the text is some white space, the
/// trimmed text and some white space, and the trimmed text neither begins nor ends with any. It is
/// empty if and only if the text is nothing but white space.
pub proof fn law_trimming_takes_white_space_only(s: Seq<char>)
    ensures
        exists|front: Seq<char>, back: Seq<char>| #[trigger]
            surrounded(s, front, trimmed(s), back),
        trimmed(s).len() > 0 ==> !whitespace(trimmed(s)[0]) && !whitespace(trimmed(s).last()),
        trimmed(s).len() == 0 <==> blank(s),
{
    let front = lemma_trim_front(s);
    let middle = trim_front(s);
    let back = lemma_trim_back(middle);
    let core = trimmed(s);
    assert(s =~= front + core + back);
    assert(surrounded(s, front, core, back));
    if core.len() > 0 {
        assert(core[0] == middle[0]);
        assert(s[front.len() as int] == core[0]);
    } else {
        assert forall|i: int| 0 <= i < s.len() implies whitespace(#[trigger] s[i]) by {
            if i < front.len() {
                assert(s[i] == front[i]);
            } else {
                assert(s[i] == back[i - front.len()]);
            }
        }
    }
}

/// White space is the tab and the four breaks behind it, the blank, the next-line control, the
/// blank that does not break, the Ogham blank, the eleven blanks from the en quad on, the two
/// separators, the two narrow blanks and the ideographic blank.
pub proof fn law_white_space(c: char)
    ensures
        whitespace(c) <==> {
            ||| c == '\t' || c == '\n' || c == '\u{b}' || c == '\u{c}' || c == '\r' || c == ' '
            ||| c == '\u{85}' || c == '\u{a0}' || c == '\u{1680}'
            ||| c == '\u{2000}' || c == '\u{2001}' || c == '\u{2002}' || c == '\u{2003}'
            ||| c == '\u{2004}' || c == '\u{2005}' || c == '\u{2006}' || c == '\u{2007}'
            ||| c == '\u{2008}' || c == '\u{2009}' || c == '\u{200a}'
            ||| c == '\u{2028}' || c == '\u{2029}' || c == '\u{202f}' || c == '\u{205f}'
            ||| c == '\u{3000}'
        },
{
}

/// The decimal digits of a number are digits, begin with a zero only where the number is zero, and
/// have the number as their value: adding a digit takes ten times the value plus the digit.
pub proof fn law_decimal_has_the_value(n: nat)
    ensures
        decimal(n).len() > 0,
        forall|i: int| 0 <= i < decimal(n).len() ==> '0' <= #[trigger] decimal(n)[i] <= '9',
        decimal(n)[0] == '0' ==> n == 0,
        digits_value(decimal(n)) == n,
    decreases n,
{
    reveal_with_fuel(digits_value, 2);
    if n >= 10 {
        law_decimal_has_the_value(n / 10);
        let front = decimal(n / 10);
        assert(decimal(n).drop_last() =~= front);
        assert(decimal(n).last() == digit(n % 10));
        assert(decimal(n)[0] == front[0]);
    } else {
        assert(decimal(n).drop_last() =~= Seq::empty());
        assert(decimal(n).last() == digit(n));
    }
}

/// What decimal digits stand for.
pub open spec fn digits_value(digits: Seq<char>) -> int
    decreases digits.len(),
{
    if digits.len() == 0 {
        0
    } else {
        10 * digits_value(digits.drop_last()) + (digits.last() as int - '0' as int)
    }
}

/// The last digits of a number are as many digits as asked for, and stand for the number where it
/// has no more.
pub proof fn law_padded_has_the_value(n: nat, width: nat)
    ensures
        last_digits(n, width).len() == width,
        forall|i: int| 0 <= i < width ==> '0' <= #[trigger] last_digits(n, width)[i] <= '9',
        n < vstd::arithmetic::power::pow(10, width) ==> digits_value(last_digits(n, width)) == n,
    decreases width,
{
    vstd::arithmetic::power::lemma_pow0(10);
    if width > 0 {
        let less = (width - 1) as nat;
        law_padded_has_the_value(n / 10, less);
        let front = last_digits(n / 10, less);
        assert(last_digits(n, width).drop_last() =~= front);
        assert(last_digits(n, width).last() == digit(n % 10));
        vstd::arithmetic::power::lemma_pow_adds(10, 1, less);
        vstd::arithmetic::power::lemma_pow1(10);
        assert(vstd::arithmetic::power::pow(10, width) == 10 * vstd::arithmetic::power::pow(
            10,
            less,
        ));
    }
}

/// The text before the first of two characters holds neither, and ends where one of them stands or
/// where the text ends.
pub proof fn law_text_before_the_first(s: Seq<char>, a: char, b: char)
    ensures
        before_first(s, a, b).len() <= s.len(),
        before_first(s, a, b) == s.take(before_first(s, a, b).len() as int),
        !before_first(s, a, b).contains(a) && !before_first(s, a, b).contains(b),
        before_first(s, a, b).len() < s.len() ==> {
            let next = s[before_first(s, a, b).len() as int];
            next == a || next == b
        },
    decreases s.len(),
{
    let n = length_before(s, a, b) as int;
    if s.len() > 0 && s[0] != a && s[0] != b {
        let rest = s.drop_first();
        law_text_before_the_first(rest, a, b);
        let m = length_before(rest, a, b) as int;
        lemma_length_before_fits(rest, a, b);
        assert(before_first(rest, a, b).len() == m);
        assert(before_first(s, a, b).len() == n);
        assert forall|i: int| 0 <= i < n implies s[i] != a && s[i] != b by {
            if i > 0 {
                assert(before_first(rest, a, b)[i - 1] == s[i]);
                assert(before_first(rest, a, b).contains(s[i]));
            }
        }
        if n < s.len() {
            assert(rest[m] == s[n]);
        }
    } else {
        assert(before_first(s, a, b).len() == 0);
    }
}

proof fn lemma_length_before_fits(s: Seq<char>, a: char, b: char)
    ensures
        length_before(s, a, b) <= s.len(),
    decreases s.len(),
{
    if s.len() > 0 {
        lemma_length_before_fits(s.drop_first(), a, b);
    }
}

/// The text behind the last of a character is an end of the text that does not hold it, and either
/// the whole text or what follows one.
pub proof fn law_text_behind_the_last(s: Seq<char>, c: char)
    ensures
        behind_last(s, c).len() <= s.len(),
        behind_last(s, c) == s.skip(s.len() - behind_last(s, c).len()),
        !behind_last(s, c).contains(c),
        behind_last(s, c).len() < s.len() ==> s[s.len() - behind_last(s, c).len() - 1] == c,
    decreases s.len(),
{
    if s.contains(c) {
        let rest = s.drop_first();
        law_text_behind_the_last(rest, c);
        let n = behind_last(rest, c).len() as int;
        assert(rest.skip(rest.len() - n) =~= s.skip(s.len() - n));
        if n < rest.len() {
            assert(rest[rest.len() - n - 1] == s[s.len() - n - 1]);
        } else {
            assert(rest.skip(0) =~= rest);
            let i = choose|i: int| 0 <= i < s.len() && s[i] == c;
            if i > 0 {
                assert(rest[i - 1] == c);
            }
        }
    } else {
        assert(s.skip(0) =~= s);
    }
}

/// What is cut off an end is made of the one character, and what stays does not end with it.
pub proof fn law_end_is_cut_off(s: Seq<char>, c: char)
    ensures
        trimmed_end(s, c).len() <= s.len(),
        trimmed_end(s, c) == s.take(trimmed_end(s, c).len() as int),
        forall|i: int| trimmed_end(s, c).len() <= i < s.len() ==> s[i] == c,
        trimmed_end(s, c).len() > 0 ==> trimmed_end(s, c).last() != c,
    decreases s.len(),
{
    if s.len() > 0 && s.last() == c {
        let rest = s.drop_last();
        law_end_is_cut_off(rest, c);
        let n = trimmed_end(rest, c).len() as int;
        assert(rest.take(n) =~= s.take(n));
        assert forall|i: int| n <= i < s.len() implies s[i] == c by {
            if i < rest.len() {
                assert(rest[i] == s[i]);
            }
        }
    } else {
        assert(s.take(s.len() as int) =~= s);
    }
}

} // verus!
