//! Text as sequences of characters: building it, comparing it, and reading
//! numbers out of it.

use vstd::prelude::*;

verus! {

/// `String::push` appends the character `c` to the end of the text.
pub assume_specification[ String::push ](s: &mut String, c: char)
    ensures
        final(s)@ == old(s)@.push(c),
;

/// The character that stands for the decimal digit `d`.
pub open spec fn digit(d: int) -> char {
    (d + ('0' as int)) as char
}

/// The shortest decimal numeral of `n`.
pub open spec fn decimal(n: nat) -> Seq<char>
    decreases n,
{
    if n < 10 {
        seq![digit(n as int)]
    } else {
        decimal(n / 10).push(digit((n % 10) as int))
    }
}

/// The character that stands for the hexadecimal digit `d`, in lower case.
pub open spec fn hex_digit(d: int) -> char {
    if d < 10 {
        digit(d)
    } else {
        (d - 10 + ('a' as int)) as char
    }
}

/// The last `width` hexadecimal digits of `n`, padded with zeros.
pub open spec fn hex_padded(n: nat, width: nat) -> Seq<char>
    decreases width,
{
    if width == 0 {
        seq![]
    } else {
        hex_padded(n / 16, (width - 1) as nat).push(hex_digit((n % 16) as int))
    }
}

pub open spec fn is_digit(c: char) -> bool {
    '0' <= c <= '9'
}

/// Every character of `s` is a decimal digit.
pub open spec fn all_digits(s: Seq<char>) -> bool {
    forall|i: int| 0 <= i < s.len() ==> is_digit(#[trigger] s[i])
}

/// The number that the decimal digits `s` write down.
pub open spec fn digits_value(s: Seq<char>) -> nat
    decreases s.len(),
{
    if s.len() == 0 {
        0
    } else {
        digits_value(s.drop_last()) * 10 + ((s.last() as int - '0' as int) as nat)
    }
}

/// `s` without a leading plus sign, if it has one.
pub open spec fn unsigned_digits(s: Seq<char>) -> Seq<char> {
    if s.len() > 0 && s[0] == '+' {
        s.drop_first()
    } else {
        s
    }
}

/// The value of `s` read as an unsigned decimal number of at most `max`: an
/// optional plus sign, then one or more digits.
pub open spec fn parsed_unsigned(s: Seq<char>, max: nat) -> Option<nat> {
    let d = unsigned_digits(s);
    if d.len() > 0 && all_digits(d) && digits_value(d) <= max {
        Some(digits_value(d))
    } else {
        None
    }
}

/// The value of `s` read as a signed 32-bit decimal number: an optional sign,
/// then one or more digits.
pub open spec fn parsed_i32(s: Seq<char>) -> Option<int> {
    if s.len() > 0 && s[0] == '-' {
        let d = s.drop_first();
        if d.len() > 0 && all_digits(d) && digits_value(d) <= 0x8000_0000 {
            Some(-(digits_value(d) as int))
        } else {
            None
        }
    } else {
        match parsed_unsigned(s, i32::MAX as nat) {
            Some(v) => Some(v as int),
            None => None,
        }
    }
}

/// `a` comes before `b` in lexicographic order.
pub open spec fn lex_less(a: Seq<int>, b: Seq<int>) -> bool
    decreases a.len(),
{
    if b.len() == 0 {
        false
    } else if a.len() == 0 {
        true
    } else if a[0] == b[0] {
        lex_less(a.drop_first(), b.drop_first())
    } else {
        a[0] < b[0]
    }
}

/// The code points of `s`, the order of texts being the lexicographic order
/// of these.
pub open spec fn text_key(s: Seq<char>) -> Seq<int> {
    Seq::new(s.len(), |i: int| s[i] as int)
}

/// Texts with the same code points are equal.
pub proof fn lemma_text_key_injective(a: Seq<char>, b: Seq<char>)
    ensures
        text_key(a) == text_key(b) ==> a == b,
{
    if text_key(a) == text_key(b) {
        assert(text_key(a).len() == a.len());
        assert forall|i: int| 0 <= i < a.len() implies a[i] == b[i] by {
            assert(text_key(a)[i] == text_key(b)[i]);
        }
        assert(a =~= b);
    }
}

/// A decimal numeral is made of one or more digits.
pub proof fn lemma_decimal_digits(n: nat)
    ensures
        all_digits(decimal(n)),
        decimal(n).len() > 0,
    decreases n,
{
    if n >= 10 {
        lemma_decimal_digits(n / 10);
        assert forall|i: int| 0 <= i < decimal(n).len() implies is_digit(
            #[trigger] decimal(n)[i],
        ) by {
            if i < decimal(n / 10).len() {
                assert(is_digit(decimal(n / 10)[i]));
            }
        }
    }
}

/// A decimal numeral writes down the number that it was made from.
pub proof fn lemma_decimal_value(n: nat)
    ensures
        digits_value(decimal(n)) == n,
    decreases n,
{
    let s = decimal(n);
    if n >= 10 {
        lemma_decimal_value(n / 10);
        assert(s.drop_last() =~= decimal(n / 10));
        assert(s.last() == digit((n % 10) as int));
    } else {
        assert(s.drop_last() =~= Seq::<char>::empty());
        assert(s.last() == digit(n as int));
        reveal_with_fuel(digits_value, 2);
    }
}

/// Reading back the numeral of a number gives the number.
pub proof fn lemma_decimal_parses(n: nat, max: nat)
    requires
        n <= max,
    ensures
        parsed_unsigned(decimal(n), max) == Some(n),
{
    lemma_decimal_digits(n);
    lemma_decimal_value(n);
    assert(is_digit(decimal(n)[0]));
}

/// Different numbers have different numerals.
pub proof fn lemma_decimal_injective(a: nat, b: nat)
    requires
        decimal(a) == decimal(b),
    ensures
        a == b,
{
    lemma_decimal_value(a);
    lemma_decimal_value(b);
}

/// Two numerals with a colon between them determine both numbers.
pub proof fn lemma_colon_pair_injective(a: nat, b: nat, c: nat, d: nat)
    requires
        decimal(a) + ":"@ + decimal(b) == decimal(c) + ":"@ + decimal(d),
    ensures
        a == c,
        b == d,
{
    reveal_strlit(":");
    lemma_decimal_digits(a);
    lemma_decimal_digits(c);
    let x = decimal(a) + ":"@ + decimal(b);
    let y = decimal(c) + ":"@ + decimal(d);
    let m = decimal(a).len() as int;
    let n = decimal(c).len() as int;
    assert(x[m] == ':');
    assert(y[n] == ':');
    if m < n {
        assert(y[m] == decimal(c)[m]);
        assert(is_digit(decimal(c)[m]));
    }
    if n < m {
        assert(x[n] == decimal(a)[n]);
        assert(is_digit(decimal(a)[n]));
    }
    assert(x.take(m) =~= decimal(a));
    assert(y.take(n) =~= decimal(c));
    assert(x.skip(m + 1) =~= decimal(b));
    assert(y.skip(n + 1) =~= decimal(d));
    lemma_decimal_injective(a, c);
    lemma_decimal_injective(b, d);
}

/// The index of the last `c` in `s`.
pub open spec fn last_index(s: Seq<char>, c: char) -> Option<int>
    decreases s.len(),
{
    if s.len() == 0 {
        None
    } else if s.last() == c {
        Some(s.len() - 1)
    } else {
        last_index(s.drop_last(), c)
    }
}

/// `needle` occurs in `s` at index `i`.
pub open spec fn occurs_at(s: Seq<char>, needle: Seq<char>, i: int) -> bool {
    0 <= i && i + needle.len() <= s.len() && s.subrange(i, i + needle.len()) == needle
}

/// The index of the first occurrence of `needle` in `s`, at `from` or later.
pub open spec fn first_occurrence(s: Seq<char>, needle: Seq<char>, from: int) -> Option<int>
    decreases s.len() + 1 - from,
{
    if from < 0 || from + needle.len() > s.len() {
        None
    } else if occurs_at(s, needle, from) {
        Some(from)
    } else {
        first_occurrence(s, needle, from + 1)
    }
}

/// `s` with the first occurrence of `needle` replaced by `by`.
pub open spec fn replaced_first(s: Seq<char>, needle: Seq<char>, by: Seq<char>) -> Seq<char> {
    match first_occurrence(s, needle, 0) {
        Some(i) => s.take(i) + by + s.skip(i + needle.len()),
        None => s,
    }
}

/// A first occurrence is an occurrence, at `from` or later.
pub proof fn lemma_first_occurrence(s: Seq<char>, needle: Seq<char>, from: int)
    ensures
        first_occurrence(s, needle, from) matches Some(i) ==> from <= i && occurs_at(s, needle, i),
    decreases s.len() + 1 - from,
{
    if !(from < 0 || from + needle.len() > s.len()) && !occurs_at(s, needle, from) {
        lemma_first_occurrence(s, needle, from + 1);
    }
}

/// The first occurrence is no later than any other.
pub proof fn lemma_occurrence_found(s: Seq<char>, needle: Seq<char>, from: int, at: int)
    requires
        0 <= from <= at,
        occurs_at(s, needle, at),
    ensures
        first_occurrence(s, needle, from) matches Some(i) && i <= at,
    decreases at - from,
{
    if !occurs_at(s, needle, from) {
        lemma_occurrence_found(s, needle, from + 1, at);
    }
}

/// `s` with every occurrence of `needle` replaced by `by`, taken from the left
/// and without overlap.
pub open spec fn replaced(s: Seq<char>, needle: Seq<char>, by: Seq<char>) -> Seq<char>
    decreases s.len(),
{
    if needle.len() == 0 {
        s
    } else {
        match first_occurrence(s, needle, 0) {
            Some(i) => {
                proof {
                    lemma_first_occurrence(s, needle, 0);
                }
                s.take(i) + by + replaced(s.skip(i + needle.len()), needle, by)
            },
            None => s,
        }
    }
}

/// The characters of `s`, in order.
pub fn text_chars(s: &str) -> (v: Vec<char>)
    ensures
        v@ == s@,
{
    let mut v: Vec<char> = Vec::new();
    for c in it: s.chars()
        invariant
            v@ == it.seq().take(it.index() as int),
            it.seq() == s@,
    {
        v.push(c);
    }
    v
}

/// The text made of the characters of `v` from `from` up to but not
/// including `to`.
pub fn text_of(v: &Vec<char>, from: usize, to: usize) -> (s: String)
    requires
        from <= to <= v@.len(),
    ensures
        s@ == v@.subrange(from as int, to as int),
{
    let mut s = String::new();
    let mut i: usize = from;
    while i < to
        invariant
            from <= i <= to <= v@.len(),
            s@ == v@.subrange(from as int, i as int),
        decreases to - i,
    {
        s.push(v[i]);
        i = i + 1;
    }
    s
}

/// Whether the two texts are equal.
pub fn text_eq(a: &str, b: &str) -> (r: bool)
    ensures
        r == (a@ == b@),
{
    let x = text_chars(a);
    let y = text_chars(b);
    if x.len() != y.len() {
        return false;
    }
    let mut i: usize = 0;
    while i < x.len()
        invariant
            i <= x@.len() == y@.len(),
            x@ == a@,
            y@ == b@,
            forall|j: int| 0 <= j < i ==> x@[j] == y@[j],
        decreases x@.len() - i,
    {
        if x[i] != y[i] {
            return false;
        }
        i = i + 1;
    }
    assert(x@ =~= y@);
    true
}

/// Whether `a` comes before `b`, comparing code points.
pub fn text_less(a: &str, b: &str) -> (r: bool)
    ensures
        r == lex_less(text_key(a@), text_key(b@)),
{
    let x = text_chars(a);
    let y = text_chars(b);
    let mut i: usize = 0;
    assert(text_key(a@).skip(0) =~= text_key(a@));
    assert(text_key(b@).skip(0) =~= text_key(b@));
    while i < x.len() && i < y.len()
        invariant
            i <= x@.len(),
            i <= y@.len(),
            x@ == a@,
            y@ == b@,
            lex_less(text_key(a@), text_key(b@)) == lex_less(
                text_key(a@).skip(i as int),
                text_key(b@).skip(i as int),
            ),
        decreases x@.len() - i,
    {
        let ghost ka = text_key(a@).skip(i as int);
        let ghost kb = text_key(b@).skip(i as int);
        assert(ka[0] == x@[i as int] as int);
        assert(kb[0] == y@[i as int] as int);
        assert(ka.drop_first() =~= text_key(a@).skip(i + 1));
        assert(kb.drop_first() =~= text_key(b@).skip(i + 1));
        if x[i] != y[i] {
            return x[i] < y[i];
        }
        i = i + 1;
    }
    i < y.len()
}

/// The decimal numeral of `n`.
pub fn decimal_text(n: u64) -> (s: String)
    ensures
        s@ == decimal(n as nat),
    decreases n,
{
    let d: char = (48u8 + (n % 10) as u8) as char;
    if n < 10 {
        let mut s = String::new();
        s.push(d);
        assert(s@ =~= seq![digit(n as int)]);
        s
    } else {
        let mut s = decimal_text(n / 10);
        s.push(d);
        s
    }
}

/// The sixteen-digit hexadecimal numeral of `n`.
pub fn hex16_text(n: u64) -> (s: String)
    ensures
        s@ == hex_padded(n as nat, 16),
{
    hex_text(n, 16)
}

fn hex_text(n: u64, width: u32) -> (s: String)
    ensures
        s@ == hex_padded(n as nat, width as nat),
    decreases width,
{
    if width == 0 {
        let s = String::new();
        assert(s@ =~= seq![]);
        s
    } else {
        let d: u8 = (n % 16) as u8;
        let mut s = hex_text(n / 16, width - 1);
        if d < 10 {
            s.push((48u8 + d) as char);
        } else {
            s.push((87u8 + d) as char);
        }
        s
    }
}

/// A prefix of digits writes down no more than the whole.
proof fn lemma_digits_value_grows(s: Seq<char>, i: int)
    requires
        0 <= i <= s.len(),
        all_digits(s),
    ensures
        digits_value(s.take(i)) <= digits_value(s),
    decreases s.len(),
{
    if i == s.len() {
        assert(s.take(i) =~= s);
    } else {
        lemma_digits_value_grows(s.drop_last(), i);
        assert(s.drop_last().take(i) =~= s.take(i));
        assert(is_digit(s[s.len() - 1]));
    }
}

/// Reads the digits of `v` from `from` on as a number of at most `max`.
fn read_digits(v: &Vec<char>, from: usize, max: u64) -> (r: Option<u64>)
    requires
        from <= v@.len(),
    ensures
        r is Some <==> (v@.skip(from as int).len() > 0 && all_digits(v@.skip(from as int))
            && digits_value(v@.skip(from as int)) <= max),
        r matches Some(n) ==> n == digits_value(v@.skip(from as int)),
{
    let ghost d = v@.skip(from as int);
    if from == v.len() {
        return None;
    }
    let mut acc: u64 = 0;
    let mut i: usize = from;
    assert(d.take(0) =~= seq![]);
    while i < v.len()
        invariant
            from <= i <= v@.len(),
            d == v@.skip(from as int),
            all_digits(d.take(i - from)),
            acc == digits_value(d.take(i - from)),
            acc <= max,
        decreases v@.len() - i,
    {
        let c: char = v[i];
        assert(c == d[i - from]);
        if !('0' <= c && c <= '9') {
            return None;
        }
        let x: u64 = (c as u32 - 48) as u64;
        let ghost t = d.take(i - from + 1);
        assert(t.drop_last() =~= d.take(i - from));
        assert(all_digits(t));
        assert(digits_value(t) == acc * 10 + x);
        if acc > (u64::MAX - x) / 10 || acc * 10 + x > max {
            proof {
                if all_digits(d) {
                    lemma_digits_value_grows(d, i - from + 1);
                }
            }
            return None;
        }
        acc = acc * 10 + x;
        i = i + 1;
    }
    assert(d.take(i - from) =~= d);
    Some(acc)
}

/// Reads the whole of `s` as an unsigned decimal number of at most `max`.
pub fn parse_unsigned(s: &str, max: u64) -> (r: Option<u64>)
    ensures
        r is Some <==> parsed_unsigned(s@, max as nat) is Some,
        r matches Some(n) ==> n == parsed_unsigned(s@, max as nat)->0,
{
    let v = text_chars(s);
    if v.len() > 0 && v[0] == '+' {
        assert(v@.skip(1) =~= s@.drop_first());
        read_digits(&v, 1, max)
    } else {
        assert(v@.skip(0) =~= s@);
        read_digits(&v, 0, max)
    }
}

/// Reads the whole of `s` as a signed 32-bit decimal number.
pub fn parse_i32(s: &str) -> (r: Option<i32>)
    ensures
        r is Some <==> parsed_i32(s@) is Some,
        r matches Some(n) ==> n == parsed_i32(s@)->0,
{
    let v = text_chars(s);
    if v.len() > 0 && v[0] == '-' {
        assert(v@.skip(1) =~= s@.drop_first());
        match read_digits(&v, 1, 0x8000_0000) {
            Some(n) => {
                let m: i64 = -(n as i64);
                Some(m as i32)
            },
            None => None,
        }
    } else {
        match parse_unsigned(s, 0x7fff_ffff) {
            Some(n) => Some(n as i32),
            None => None,
        }
    }
}

/// The index of the last `c` among the characters `v`.
pub fn find_last(v: &Vec<char>, c: char) -> (r: Option<usize>)
    ensures
        r is Some <==> last_index(v@, c) is Some,
        r matches Some(i) ==> i == last_index(v@, c)->0 && i < v@.len() && v@[i as int] == c,
{
    let mut n: usize = v.len();
    assert(v@.take(n as int) =~= v@);
    while n > 0
        invariant
            n <= v@.len(),
            last_index(v@, c) == last_index(v@.take(n as int), c),
        decreases n,
    {
        assert(v@.take(n as int).drop_last() =~= v@.take(n - 1));
        assert(v@.take(n as int).last() == v@[n - 1]);
        if v[n - 1] == c {
            return Some(n - 1);
        }
        n = n - 1;
    }
    None
}

fn occurs(v: &Vec<char>, needle: &Vec<char>, at: usize) -> (r: bool)
    requires
        at + needle@.len() <= v@.len(),
    ensures
        r == occurs_at(v@, needle@, at as int),
{
    let n: usize = v.len();
    let mut i: usize = 0;
    while i < needle.len()
        invariant
            n == v@.len(),
            i <= needle@.len(),
            at + needle@.len() <= v@.len(),
            forall|j: int| 0 <= j < i ==> v@[at + j] == needle@[j],
        decreases needle@.len() - i,
    {
        if v[at + i] != needle[i] {
            assert(v@.subrange(at as int, at + needle@.len())[i as int] != needle@[i as int]);
            return false;
        }
        i = i + 1;
    }
    assert(v@.subrange(at as int, at + needle@.len()) =~= needle@);
    true
}

/// Whether the text `s` starts with `prefix`.
pub fn starts_with(s: &str, prefix: &str) -> (r: bool)
    ensures
        r == prefix@.is_prefix_of(s@),
{
    let v = text_chars(s);
    let p = text_chars(prefix);
    if p.len() > v.len() {
        return false;
    }
    let r = occurs(&v, &p, 0);
    r
}

/// `s` without `prefix`, where it starts with it.
pub fn strip_prefix(s: &str, prefix: &str) -> (r: Option<String>)
    ensures
        r is Some <==> prefix@.is_prefix_of(s@),
        r matches Some(t) ==> t@ == s@.skip(prefix@.len() as int),
{
    if starts_with(s, prefix) {
        let v = text_chars(s);
        let p = text_chars(prefix);
        Some(text_of(&v, p.len(), v.len()))
    } else {
        None
    }
}

/// The index, in characters, of the first occurrence of `needle` in `v`.
pub fn find_first(v: &Vec<char>, needle: &Vec<char>) -> (r: Option<usize>)
    ensures
        r is Some <==> first_occurrence(v@, needle@, 0) is Some,
        r matches Some(i) ==> i == first_occurrence(v@, needle@, 0)->0 && i + needle@.len()
            <= v@.len(),
{
    if needle.len() > v.len() {
        return None;
    }
    let mut i: usize = 0;
    while i <= v.len() - needle.len()
        invariant
            needle@.len() <= v@.len(),
            i <= v@.len() - needle@.len() + 1,
            first_occurrence(v@, needle@, 0) == first_occurrence(v@, needle@, i as int),
        decreases v@.len() + 1 - i,
    {
        if occurs(v, needle, i) {
            return Some(i);
        }
        if i == v.len() - needle.len() {
            assert(first_occurrence(v@, needle@, i + 1) is None);
            return None;
        }
        i = i + 1;
    }
    None
}

/// `s` with the first occurrence of `needle` replaced by `by`.
pub fn replace_first(s: &str, needle: &str, by: &str) -> (r: String)
    ensures
        r@ == replaced_first(s@, needle@, by@),
{
    let v = text_chars(s);
    let p = text_chars(needle);
    match find_first(&v, &p) {
        Some(i) => {
            let n: usize = v.len();
            assert(i + p@.len() <= n);
            let mut r = text_of(&v, 0, i);
            r.append(by);
            let tail = text_of(&v, i + p.len(), n);
            r.append(tail.as_str());
            r
        },
        None => s.to_owned(),
    }
}

/// `s` with every occurrence of `needle` replaced by `by`.
pub fn replace_all(s: &str, needle: &str, by: &str) -> (r: String)
    requires
        needle@.len() > 0,
    ensures
        r@ == replaced(s@, needle@, by@),
{
    let p = text_chars(needle);
    let mut done = String::new();
    let mut rest = text_chars(s);
    assert(done@ + replaced(rest@, needle@, by@) =~= replaced(s@, needle@, by@));
    let mut found = find_first(&rest, &p);
    while found.is_some()
        invariant
            p@ == needle@,
            needle@.len() > 0,
            done@ + replaced(rest@, needle@, by@) == replaced(s@, needle@, by@),
            found is Some <==> first_occurrence(rest@, needle@, 0) is Some,
            found matches Some(i) ==> i == first_occurrence(rest@, needle@, 0)->0 && i
                + needle@.len() <= rest@.len(),
        decreases rest@.len(),
    {
        let i: usize = found.unwrap();
        let n: usize = rest.len();
        assert(i + p@.len() <= n);
        let ghost before = done@;
        done.append(text_of(&rest, 0, i).as_str());
        done.append(by);
        let tail = text_of(&rest, i + p.len(), n);
        assert(rest@.subrange(i + p@.len(), n as int) =~= rest@.skip(i + p@.len()));
        assert(rest@.subrange(0, i as int) =~= rest@.take(i as int));
        assert(done@ + replaced(tail@, needle@, by@) =~= before + (rest@.take(i as int) + by@
            + replaced(tail@, needle@, by@)));
        rest = text_chars(tail.as_str());
        found = find_first(&rest, &p);
    }
    done.append(text_of(&rest, 0, rest.len()).as_str());
    assert(rest@.subrange(0, rest@.len() as int) =~= rest@);
    done
}

/// Digits are the characters from `0` to `9`, and a numeral grows by one digit
/// for every power of ten; a longer one does not begin with a zero.
pub proof fn lemma_decimal_is_decimal(n: nat, s: Seq<char>, d: int)
    requires
        0 <= d <= 9,
    ensures
        digit(d) as int == 48 + d,
        is_digit(digit(d)),
        digits_value(Seq::empty()) == 0,
        digits_value(s.push(digit(d))) == 10 * digits_value(s) + d,
        n < 10 ==> decimal(n) == seq![digit(n as int)],
        n >= 10 ==> decimal(n).len() > 1 && decimal(n)[0] != '0',
    decreases n,
{
    assert(s.push(digit(d)).drop_last() =~= s);
    if n >= 10 {
        lemma_decimal_digits(n / 10);
        if n / 10 >= 10 {
            lemma_decimal_is_decimal(n / 10, s, d);
        }
        assert(decimal(n)[0] == decimal(n / 10)[0]);
    }
}

/// A character is a digit just where it is one from `0` to `9`.
pub proof fn lemma_digits(c: char, s: Seq<char>)
    ensures
        is_digit(c) <==> 48 <= c as int <= 57,
        all_digits(s) <==> forall|i: int| 0 <= i < s.len() ==> 48 <= #[trigger] s[i] as int <= 57,
{
    assert forall|i: int| 0 <= i < s.len() && all_digits(s) implies 48 <= #[trigger] s[i] as int
        <= 57 by {
        assert(is_digit(s[i]));
    }
    if forall|i: int| 0 <= i < s.len() ==> 48 <= #[trigger] s[i] as int <= 57 {
        assert forall|i: int| 0 <= i < s.len() implies is_digit(#[trigger] s[i]) by {
            assert(48 <= s[i] as int <= 57);
        }
    }
}

/// Hexadecimal digits are `0` to `9` and `a` to `f`; a number is padded to the
/// width, and its last digit is the remainder by sixteen.
pub proof fn lemma_hex_is_hex(n: nat, width: nat, d: int)
    requires
        0 <= d < 16,
    ensures
        d < 10 ==> hex_digit(d) as int == 48 + d,
        d >= 10 ==> hex_digit(d) as int == 97 + d - 10,
        hex_padded(n, width).len() == width,
        hex_padded(n, width + 1).last() == hex_digit((n % 16) as int),
        hex_padded(n, width + 1).drop_last() == hex_padded(n / 16, width),
    decreases width,
{
    if width > 0 {
        lemma_hex_is_hex(n / 16, (width - 1) as nat, d);
    }
    assert(hex_padded(n, width + 1).drop_last() =~= hex_padded(n / 16, width));
}

/// A number is read from its digits, with or without a plus sign, as long as it
/// is in range; a text with anything else in it is no number.
pub proof fn lemma_numbers_read(s: Seq<char>, max: nat, i: int)
    ensures
        s.len() > 0 && all_digits(s) && digits_value(s) <= max ==> parsed_unsigned(s, max) == Some(
            digits_value(s),
        ) && parsed_unsigned(seq!['+'] + s, max) == Some(digits_value(s)),
        s.len() > 0 && all_digits(s) && digits_value(s) > max ==> parsed_unsigned(s, max) is None,
        parsed_unsigned(s, max) matches Some(n) ==> n <= max,
        0 <= i < s.len() && !is_digit(s[i]) && !(i == 0 && s[0] == '+') ==> parsed_unsigned(
            s,
            max,
        ) is None,
        parsed_unsigned(Seq::empty(), max) is None,
        parsed_unsigned(seq!['+'], max) is None,
{
    let p = seq!['+'] + s;
    assert(p.drop_first() =~= s);
    if s.len() > 0 && all_digits(s) {
        assert(is_digit(s[0]));
    }
    assert(seq!['+'].drop_first() =~= Seq::<char>::empty());
    if 0 <= i < s.len() && !is_digit(s[i]) && !(i == 0 && s[0] == '+') {
        if s[0] == '+' {
            assert(s.drop_first()[i - 1] == s[i]);
        }
    }
}

/// A signed number is read back from its numeral, as far as 32 bits go.
pub proof fn lemma_signed_numbers_read(n: nat)
    ensures
        n <= 0x7fff_ffff ==> parsed_i32(decimal(n)) == Some(n as int),
        n > 0x7fff_ffff ==> parsed_i32(decimal(n)) is None,
        n <= 0x8000_0000 ==> parsed_i32(seq!['-'] + decimal(n)) == Some(-(n as int)),
        n > 0x8000_0000 ==> parsed_i32(seq!['-'] + decimal(n)) is None,
        parsed_i32(Seq::empty()) is None,
{
    lemma_decimal_digits(n);
    lemma_decimal_value(n);
    assert(is_digit(decimal(n)[0]));
    let m = seq!['-'] + decimal(n);
    assert(m.drop_first() =~= decimal(n));
}

/// The code points of a text are those of its characters.
pub proof fn lemma_text_key(s: Seq<char>, i: int)
    ensures
        text_key(s).len() == s.len(),
        0 <= i < s.len() ==> text_key(s)[i] == s[i] as int,
{
}

/// The last index of a character is one where it stands, and it stands nowhere
/// behind it; where there is none, it stands nowhere.
pub proof fn lemma_last_index(s: Seq<char>, c: char)
    ensures
        match last_index(s, c) {
            Some(i) => 0 <= i < s.len() && s[i] == c && forall|j: int|
                i < j < s.len() ==> #[trigger] s[j] != c,
            None => forall|j: int| 0 <= j < s.len() ==> #[trigger] s[j] != c,
        },
    decreases s.len(),
{
    if s.len() > 0 && s.last() != c {
        let t = s.drop_last();
        lemma_last_index(t, c);
        match last_index(t, c) {
            Some(i) => {
                assert(s[i] == t[i]);
                assert forall|j: int| i < j < s.len() implies #[trigger] s[j] != c by {
                    if j < t.len() {
                        assert(t[j] == s[j]);
                    }
                }
            },
            None => {
                assert forall|j: int| 0 <= j < s.len() implies #[trigger] s[j] != c by {
                    if j < t.len() {
                        assert(t[j] == s[j]);
                    }
                }
            },
        }
    }
}

/// An occurrence is a stretch of the text.
pub proof fn lemma_occurrence(a: Seq<char>, needle: Seq<char>, b: Seq<char>)
    ensures
        occurs_at(a + needle + b, needle, a.len() as int),
{
    let s = a + needle + b;
    assert(s.subrange(a.len() as int, (a.len() + needle.len()) as int) =~= needle);
}

/// Replacing puts the new text where the old one stood first, and leaves what
/// stands before and behind it; a text without the old one stays as it is.
pub proof fn lemma_replaced_in_place(
    a: Seq<char>,
    needle: Seq<char>,
    b: Seq<char>,
    by: Seq<char>,
    s: Seq<char>,
)
    requires
        needle.len() > 0,
        forall|i: int| 0 <= i < a.len() ==> !#[trigger] occurs_at(a + needle + b, needle, i),
        forall|i: int| !#[trigger] occurs_at(s, needle, i),
    ensures
        replaced_first(a + needle + b, needle, by) == a + by + b,
        replaced(a + needle + b, needle, by) == a + by + replaced(b, needle, by),
        replaced_first(s, needle, by) == s,
        replaced(s, needle, by) == s,
{
    let w = a + needle + b;
    lemma_occurrence(a, needle, b);
    lemma_occurrence_found(w, needle, 0, a.len() as int);
    lemma_first_occurrence(w, needle, 0);
    let i = first_occurrence(w, needle, 0)->0;
    assert(i == a.len()) by {
        if i < a.len() {
            assert(occurs_at(w, needle, i));
        }
    }
    assert(w.take(i) =~= a);
    assert(w.skip(i + needle.len()) =~= b);
    lemma_first_occurrence(s, needle, 0);
}

} // verus!
