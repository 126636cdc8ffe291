//! Text that the library produces or reads: decimal numbers, dotted addresses,
//! prefixes and line ends.

use vstd::prelude::*;

verus! {

/// The character of a decimal or hexadecimal digit.
pub open spec fn digit_char(d: nat) -> char {
    if d == 0 {
        '0'
    } else if d == 1 {
        '1'
    } else if d == 2 {
        '2'
    } else if d == 3 {
        '3'
    } else if d == 4 {
        '4'
    } else if d == 5 {
        '5'
    } else if d == 6 {
        '6'
    } else if d == 7 {
        '7'
    } else if d == 8 {
        '8'
    } else if d == 9 {
        '9'
    } else if d == 10 {
        'a'
    } else if d == 11 {
        'b'
    } else if d == 12 {
        'c'
    } else if d == 13 {
        'd'
    } else if d == 14 {
        'e'
    } else {
        'f'
    }
}

/// A number in decimal, without leading zeros.
pub open spec fn decimal(n: nat) -> Seq<char>
    decreases n,
{
    if n < 10 {
        seq![digit_char(n)]
    } else {
        decimal(n / 10).push(digit_char(n % 10))
    }
}

/// A number in decimal, with a minus sign in front of a negative one.
pub open spec fn signed_decimal(n: int) -> Seq<char> {
    if n < 0 {
        seq!['-'] + decimal((-n) as nat)
    } else {
        decimal(n as nat)
    }
}

/// A byte as two hexadecimal digits.
pub open spec fn hex_byte(b: u8) -> Seq<char> {
    seq![digit_char((b / 16) as nat), digit_char((b % 16) as nat)]
}

/// An IPv4 address in dotted decimal.
pub open spec fn dotted(ip: Seq<u8>) -> Seq<char> {
    decimal(ip[0] as nat) + seq!['.'] + decimal(ip[1] as nat) + seq!['.'] + decimal(ip[2] as nat)
        + seq!['.'] + decimal(ip[3] as nat)
}

/// What Rust's debug formatting shows for a string: the string in double
/// quotes, with escapes.
pub uninterp spec fn quoted_text(s: Seq<char>) -> Seq<char>;

/// Calls std's `Debug` formatting of a `str`. The result is a function of the
/// string alone and is known here by its name.
#[verifier::external_body]
pub(crate) fn quoted(s: &str) -> (r: String)
    ensures
        r@ == quoted_text(s@),
{
    format!("{:?}", s)
}

fn digit_text(d: u8) -> (r: &'static str)
    requires
        d < 16,
    ensures
        r@ == seq![digit_char(d as nat)],
{
    proof {
        reveal_strlit("0");
        reveal_strlit("1");
        reveal_strlit("2");
        reveal_strlit("3");
        reveal_strlit("4");
        reveal_strlit("5");
        reveal_strlit("6");
        reveal_strlit("7");
        reveal_strlit("8");
        reveal_strlit("9");
        reveal_strlit("a");
        reveal_strlit("b");
        reveal_strlit("c");
        reveal_strlit("d");
        reveal_strlit("e");
        reveal_strlit("f");
    }
    let r = match d {
        0 => "0",
        1 => "1",
        2 => "2",
        3 => "3",
        4 => "4",
        5 => "5",
        6 => "6",
        7 => "7",
        8 => "8",
        9 => "9",
        10 => "a",
        11 => "b",
        12 => "c",
        13 => "d",
        14 => "e",
        _ => "f",
    };
    assert(r@ =~= seq![digit_char(d as nat)]);
    r
}

/// Writes a number in decimal.
pub fn decimal_text(n: u64) -> (r: String)
    ensures
        r@ == decimal(n as nat),
    decreases n,
{
    if n < 10 {
        let r = digit_text(n as u8).to_string();
        r
    } else {
        let mut r = decimal_text(n / 10);
        r.append(digit_text((n % 10) as u8));
        assert(r@ =~= decimal(n as nat));
        r
    }
}

/// Writes a signed number in decimal.
pub fn signed_decimal_text(n: i64) -> (r: String)
    ensures
        r@ == signed_decimal(n as int),
{
    if n < 0 {
        proof {
            reveal_strlit("-");
        }
        let magnitude: u64 = if n == i64::MIN {
            0x8000_0000_0000_0000
        } else {
            (-n) as u64
        };
        let mut r = "-".to_string();
        r.append(decimal_text(magnitude).as_str());
        assert(r@ =~= signed_decimal(n as int));
        r
    } else {
        decimal_text(n as u64)
    }
}

/// Writes a byte as two hexadecimal digits.
pub fn hex_byte_text(b: u8) -> (r: String)
    ensures
        r@ == hex_byte(b),
{
    let mut r = digit_text(b / 16).to_string();
    r.append(digit_text(b % 16));
    assert(r@ =~= hex_byte(b));
    r
}

/// Writes an IPv4 address in dotted decimal.
pub fn dotted_text(ip: &[u8; 4]) -> (r: String)
    ensures
        r@ == dotted(ip@),
{
    proof {
        reveal_strlit(".");
    }
    let mut r = decimal_text(ip[0] as u64);
    r.append(".");
    r.append(decimal_text(ip[1] as u64).as_str());
    r.append(".");
    r.append(decimal_text(ip[2] as u64).as_str());
    r.append(".");
    r.append(decimal_text(ip[3] as u64).as_str());
    assert("."@ =~= seq!['.']);
    r
}

/// The characters of a string.
pub fn characters(s: &str) -> (r: Vec<char>)
    ensures
        r@ == s@,
{
    let mut r: Vec<char> = Vec::new();
    for c in it: s.chars()
        invariant
            r@ == it.seq().take(it.index()),
    {
        r.push(c);
    }
    r
}

/// Whether a string starts with `prefix`.
pub fn starts_with(s: &str, prefix: &str) -> (r: bool)
    ensures
        r == prefix@.is_prefix_of(s@),
{
    let a = characters(s);
    let b = characters(prefix);
    if b.len() > a.len() {
        return false;
    }
    let mut i: usize = 0;
    while i < b.len()
        invariant
            i <= b@.len() <= a@.len(),
            a@ == s@,
            b@ == prefix@,
            forall|j: int| 0 <= j < i ==> a@[j] == b@[j],
        decreases b@.len() - i,
    {
        if a[i] != b[i] {
            assert(s@.subrange(0, prefix@.len() as int)[i as int] != prefix@[i as int]);
            return false;
        }
        i = i + 1;
    }
    assert(prefix@ =~= s@.subrange(0, prefix@.len() as int));
    true
}

/// The value of a decimal digit.
pub open spec fn digit_of(c: char) -> Option<nat> {
    if '0' <= c <= '9' {
        Some((c as int - '0' as int) as nat)
    } else {
        None
    }
}

/// Whether a text consists of decimal digits, at least one.
pub open spec fn all_digits(s: Seq<char>) -> bool {
    s.len() > 0 && forall|i: int| 0 <= i < s.len() ==> digit_of(#[trigger] s[i]) is Some
}

/// The number that a row of decimal digits spells.
pub open spec fn value_of(s: Seq<char>) -> nat
    decreases s.len(),
{
    if s.len() == 0 {
        0
    } else {
        value_of(s.drop_last()) * 10 + digit_of(s.last())->0
    }
}

/// The digits of a number that may carry a plus sign.
pub open spec fn unsigned_digits(s: Seq<char>) -> Seq<char> {
    if s.len() > 0 && s[0] == '+' {
        s.skip(1)
    } else {
        s
    }
}

/// The byte that a decimal number spells, where it is one.
pub open spec fn byte_of(s: Seq<char>) -> Option<u8> {
    let d = unsigned_digits(s);
    if all_digits(d) && value_of(d) <= 255 {
        Some(value_of(d) as u8)
    } else {
        None
    }
}

/// The 64-bit number that a decimal number with an optional sign spells, where it
/// is one.
pub open spec fn int_of(s: Seq<char>) -> Option<i64> {
    if s.len() > 0 && s[0] == '-' {
        let d = s.skip(1);
        if all_digits(d) && value_of(d) <= 0x8000_0000_0000_0000 {
            Some((-(value_of(d) as int)) as i64)
        } else {
            None
        }
    } else {
        let d = unsigned_digits(s);
        if all_digits(d) && value_of(d) <= i64::MAX {
            Some(value_of(d) as i64)
        } else {
            None
        }
    }
}

/// The parts of a text between its dots.
pub open spec fn dot_parts(s: Seq<char>) -> Seq<Seq<char>>
    decreases s.len(),
{
    if s.len() == 0 {
        seq![Seq::empty()]
    } else {
        let before = dot_parts(s.drop_last());
        if s.last() == '.' {
            before.push(Seq::empty())
        } else {
            before.update(before.len() - 1, before.last().push(s.last()))
        }
    }
}

/// The address that the first four parts of a text spell, with 0 for a part that
/// is missing or is no byte.
pub open spec fn lenient_ip(s: Seq<char>) -> Seq<u8> {
    Seq::new(
        4,
        |i: int|
            if i < dot_parts(s).len() && byte_of(dot_parts(s)[i]) is Some {
                byte_of(dot_parts(s)[i])->0
            } else {
                0u8
            },
    )
}

/// Whether a text is an IPv4 address in dotted decimal without leading zeros.
pub open spec fn is_dotted(s: Seq<char>) -> bool {
    exists|ip: [u8; 4]| s == #[trigger] dotted(ip@)
}

proof fn lemma_parts_nonempty(s: Seq<char>)
    ensures
        dot_parts(s).len() > 0,
    decreases s.len(),
{
    if s.len() > 0 {
        lemma_parts_nonempty(s.drop_last());
    }
}

proof fn lemma_parts_extend(s: Seq<char>, t: Seq<char>)
    requires
        forall|i: int| 0 <= i < t.len() ==> t[i] != '.',
    ensures
        dot_parts(s + t) == dot_parts(s).update(
            dot_parts(s).len() - 1,
            dot_parts(s).last() + t,
        ),
    decreases t.len(),
{
    lemma_parts_nonempty(s);
    if t.len() == 0 {
        assert(s + t =~= s);
        assert(dot_parts(s).last() + t =~= dot_parts(s).last());
        assert(dot_parts(s).update(dot_parts(s).len() - 1, dot_parts(s).last() + t) =~= dot_parts(
            s,
        ));
    } else {
        let u = t.drop_last();
        lemma_parts_extend(s, u);
        assert((s + t).drop_last() =~= s + u);
        assert((s + t).last() == t.last());
        let p = dot_parts(s + u);
        assert(p.last() =~= dot_parts(s).last() + u);
        assert(p.last().push(t.last()) =~= dot_parts(s).last() + t);
        assert(dot_parts(s + t) =~= dot_parts(s).update(
            dot_parts(s).len() - 1,
            dot_parts(s).last() + t,
        ));
    }
}

proof fn lemma_parts_dot(s: Seq<char>, t: Seq<char>)
    requires
        forall|i: int| 0 <= i < t.len() ==> t[i] != '.',
    ensures
        dot_parts(s + seq!['.'] + t) == dot_parts(s).push(t),
{
    let d = s + seq!['.'];
    assert(d.drop_last() =~= s);
    assert(d.last() == '.');
    lemma_parts_extend(d, t);
    assert(Seq::<char>::empty() + t =~= t);
    assert(dot_parts(d) == dot_parts(s).push(Seq::empty()));
    assert(dot_parts(s).push(Seq::empty()).update(dot_parts(s).len() as int, t) =~= dot_parts(
        s,
    ).push(t));
}

proof fn lemma_decimal(n: nat)
    ensures
        all_digits(decimal(n)),
        value_of(decimal(n)) == n,
        forall|i: int|
            0 <= i < decimal(n).len() ==> #[trigger] decimal(n)[i] != '.' && decimal(n)[i] != '+',
    decreases n,
{
    let s = decimal(n);
    if n < 10 {
        assert(s.drop_last() =~= Seq::empty());
        assert(value_of(s.drop_last()) == 0);
        assert(digit_of(digit_char(n)) == Some(n));
    } else {
        lemma_decimal(n / 10);
        assert(s.drop_last() =~= decimal(n / 10));
        assert(digit_of(digit_char(n % 10)) == Some(n % 10));
        assert forall|i: int| 0 <= i < s.len() implies digit_of(#[trigger] s[i]) is Some && s[i]
            != '.' && s[i] != '+' by {
            if i < s.len() - 1 {
                assert(s[i] == decimal(n / 10)[i]);
            }
        }
    }
}

proof fn lemma_octet(b: u8)
    ensures
        byte_of(decimal(b as nat)) == Some(b),
{
    lemma_decimal(b as nat);
}

/// The address that was written in dotted decimal is the address that is read.
pub proof fn law_dotted_round_trip(ip: [u8; 4])
    ensures
        dot_parts(dotted(ip@)).len() == 4,
        lenient_ip(dotted(ip@)) == ip@,
{
    let a = decimal(ip@[0] as nat);
    let b = decimal(ip@[1] as nat);
    let c = decimal(ip@[2] as nat);
    let d = decimal(ip@[3] as nat);
    lemma_decimal(ip@[0] as nat);
    lemma_decimal(ip@[1] as nat);
    lemma_decimal(ip@[2] as nat);
    lemma_decimal(ip@[3] as nat);
    let e = Seq::<char>::empty();
    lemma_parts_extend(e, a);
    assert(e + a =~= a);
    assert(dot_parts(a) =~= seq![a]);
    lemma_parts_dot(a, b);
    lemma_parts_dot(a + seq!['.'] + b, c);
    lemma_parts_dot(a + seq!['.'] + b + seq!['.'] + c, d);
    assert(dot_parts(dotted(ip@)) =~= seq![a, b, c, d]);
    lemma_octet(ip@[0]);
    lemma_octet(ip@[1]);
    lemma_octet(ip@[2]);
    lemma_octet(ip@[3]);
    assert(lenient_ip(dotted(ip@)) =~= ip@);
}

/// No address has two dotted forms, and no text is the dotted form of two
/// addresses.
pub proof fn law_dotted_is_injective(a: [u8; 4], b: [u8; 4])
    requires
        dotted(a@) == dotted(b@),
    ensures
        a == b,
{
    law_dotted_round_trip(a);
    law_dotted_round_trip(b);
    assert(a =~= b);
}

fn digit(c: char) -> (r: Option<u64>)
    ensures
        match r {
            Some(d) => digit_of(c) == Some(d as nat) && d < 10,
            None => digit_of(c) is None,
        },
{
    match c {
        '0' => Some(0),
        '1' => Some(1),
        '2' => Some(2),
        '3' => Some(3),
        '4' => Some(4),
        '5' => Some(5),
        '6' => Some(6),
        '7' => Some(7),
        '8' => Some(8),
        '9' => Some(9),
        _ => None,
    }
}

proof fn lemma_value_grows(s: Seq<char>, i: int)
    requires
        0 <= i <= s.len(),
    ensures
        value_of(s.take(i)) <= value_of(s),
    decreases s.len() - i,
{
    if i == s.len() {
        assert(s.take(i) =~= s);
    } else {
        lemma_value_grows(s, i + 1);
        assert(s.take(i + 1).drop_last() =~= s.take(i));
    }
}

/// Reads a row of decimal digits, up to a limit.
fn digits_value(s: &[char], limit: u64) -> (r: Option<u64>)
    requires
        limit <= 0x8000_0000_0000_0000,
    ensures
        match r {
            Some(v) => all_digits(s@) && value_of(s@) == v && v <= limit,
            None => !(all_digits(s@) && value_of(s@) <= limit),
        },
{
    if s.len() == 0 {
        return None;
    }
    let mut v: u64 = 0;
    let mut i: usize = 0;
    assert(s@.take(0).len() == 0);
    while i < s.len()
        invariant
            i <= s@.len(),
            limit <= 0x8000_0000_0000_0000,
            v <= limit,
            v == value_of(s@.take(i as int)),
            forall|j: int| 0 <= j < i ==> digit_of(#[trigger] s@[j]) is Some,
        decreases s@.len() - i,
    {
        let d: u64 = match digit(s[i]) {
            Some(d) => d,
            None => return None,
        };
        proof {
            assert(s@.take(i + 1).drop_last() =~= s@.take(i as int));
            assert(value_of(s@.take(i + 1)) == v * 10 + d);
            lemma_value_grows(s@, i + 1);
        }
        if v > limit / 10 {
            return None;
        }
        let tens: u64 = v * 10;
        if tens > limit || d > limit - tens {
            return None;
        }
        v = tens + d;
        i = i + 1;
    }
    assert(s@.take(s@.len() as int) =~= s@);
    Some(v)
}

fn byte_value(s: &[char]) -> (r: Option<u8>)
    ensures
        r == byte_of(s@),
{
    let digits = if s.len() > 0 && s[0] == '+' {
        &s[1..s.len()]
    } else {
        s
    };
    assert(digits@ =~= unsigned_digits(s@));
    match digits_value(digits, 255) {
        Some(v) => Some(v as u8),
        None => None,
    }
}

/// Reads a 64-bit number with an optional sign.
pub fn parse_i64(s: &str) -> (r: Option<i64>)
    ensures
        r == int_of(s@),
{
    let cs = characters(s);
    let all = cs.as_slice();
    if all.len() > 0 && all[0] == '-' {
        let digits = &all[1..all.len()];
        assert(digits@ =~= s@.skip(1));
        match digits_value(digits, 0x8000_0000_0000_0000) {
            Some(v) => {
                if v == 0x8000_0000_0000_0000 {
                    Some(i64::MIN)
                } else {
                    Some(-(v as i64))
                }
            },
            None => None,
        }
    } else {
        let digits = if all.len() > 0 && all[0] == '+' {
            &all[1..all.len()]
        } else {
            all
        };
        assert(digits@ =~= unsigned_digits(s@));
        match digits_value(digits, i64::MAX as u64) {
            Some(v) => Some(v as i64),
            None => None,
        }
    }
}

/// Reads the address that the first four parts of a text spell.
pub fn parse_lenient_ip(s: &str) -> (r: [u8; 4])
    ensures
        r@ == lenient_ip(s@),
{
    let cs = characters(s);
    let mut out = [0u8; 4];
    let mut part: usize = 0;
    let mut start: usize = 0;
    let mut i: usize = 0;
    proof {
        assert(s@.take(0).len() == 0);
        assert(dot_parts(s@.take(0)) =~= seq![Seq::<char>::empty()]);
        assert(s@.subrange(0, 0) =~= Seq::empty());
    }
    while i < cs.len() && part < 4
        invariant
            cs@ == s@,
            start <= i <= cs@.len(),
            part <= 4,
            dot_parts(s@.take(i as int)).len() == part + 1,
            part < 4 ==> dot_parts(s@.take(i as int)).last() == s@.subrange(
                start as int,
                i as int,
            ),
            forall|k: int|
                0 <= k < 4 ==> #[trigger] out@[k] == if k < part && byte_of(
                    dot_parts(s@.take(i as int))[k],
                ) is Some {
                    byte_of(dot_parts(s@.take(i as int))[k])->0
                } else {
                    0u8
                },
        decreases cs@.len() - i,
    {
        let ghost before = dot_parts(s@.take(i as int));
        proof {
            assert(s@.take(i + 1).drop_last() =~= s@.take(i as int));
        }
        if cs[i] == '.' {
            match byte_value(&cs.as_slice()[start..i]) {
                Some(b) => {
                    out[part] = b;
                },
                None => {},
            }
            part = part + 1;
            start = i + 1;
            proof {
                assert(dot_parts(s@.take(i + 1)) == before.push(Seq::empty()));
                assert(s@.subrange(start as int, i + 1) =~= Seq::empty());
            }
        } else {
            proof {
                assert(s@.subrange(start as int, i + 1) =~= s@.subrange(
                    start as int,
                    i as int,
                ).push(s@[i as int]));
            }
        }
        i = i + 1;
    }
    if part < 4 {
        match byte_value(&cs.as_slice()[start..i]) {
            Some(b) => {
                out[part] = b;
            },
            None => {},
        }
        assert(s@.take(i as int) =~= s@);
        assert(out@ =~= lenient_ip(s@));
    } else {
        proof {
            assert(s@.take(i as int) + s@.skip(i as int) =~= s@);
            lemma_parts_prefix(s@.take(i as int), s@.skip(i as int));
            assert(out@ =~= lenient_ip(s@));
        }
    }
    out
}

/// More text leaves all but the last part as they are.
proof fn lemma_parts_prefix(s: Seq<char>, t: Seq<char>)
    ensures
        dot_parts(s + t).len() >= dot_parts(s).len(),
        forall|k: int|
            0 <= k < dot_parts(s).len() - 1 ==> #[trigger] dot_parts(s + t)[k] == dot_parts(s)[k],
    decreases t.len(),
{
    lemma_parts_nonempty(s);
    if t.len() == 0 {
        assert(s + t =~= s);
    } else {
        lemma_parts_prefix(s, t.drop_last());
        assert((s + t).drop_last() =~= s + t.drop_last());
        lemma_parts_nonempty(s + t.drop_last());
    }
}

/// Reads an IPv4 address in dotted decimal without leading zeros.
pub fn parse_ipv4(s: &str) -> (r: Option<[u8; 4]>)
    ensures
        match r {
            Some(ip) => s@ == dotted(ip@),
            None => !is_dotted(s@),
        },
{
    let ip = parse_lenient_ip(s);
    if dotted_text(&ip) == s.to_string() {
        Some(ip)
    } else {
        proof {
            if is_dotted(s@) {
                let other = choose|other: [u8; 4]| s@ == #[trigger] dotted(other@);
                law_dotted_round_trip(other);
                assert(other =~= ip);
            }
        }
        None
    }
}

/// A text without a run of a character at its end.
pub open spec fn trimmed(s: Seq<char>, c: char) -> Seq<char>
    decreases s.len(),
{
    if s.len() > 0 && s.last() == c {
        trimmed(s.drop_last(), c)
    } else {
        s
    }
}

/// How long a text is without a run of a character at its end.
pub fn trimmed_len(s: &Vec<char>, upto: usize, c: char) -> (r: usize)
    requires
        upto <= s@.len(),
    ensures
        r <= upto,
        s@.take(r as int) == trimmed(s@.take(upto as int), c),
{
    let mut n: usize = upto;
    while n > 0 && s[n - 1] == c
        invariant
            n <= upto <= s@.len(),
            trimmed(s@.take(n as int), c) == trimmed(s@.take(upto as int), c),
        decreases n,
    {
        assert(s@.take(n as int).drop_last() =~= s@.take(n - 1));
        n = n - 1;
    }
    n
}

/// A text is what trimming leaves of it followed by the characters that were trimmed,
/// and what is left does not end in such a character.
pub proof fn law_trimming_takes_the_run(s: Seq<char>, c: char)
    ensures
        ({
            let t = trimmed(s, c);
            &&& t.len() <= s.len()
            &&& t == s.take(t.len() as int)
            &&& t.len() > 0 ==> t.last() != c
            &&& forall|i: int| t.len() <= i < s.len() ==> s[i] == c
        }),
    decreases s.len(),
{
    if s.len() > 0 && s.last() == c {
        let front = s.drop_last();
        law_trimming_takes_the_run(front, c);
        let t = trimmed(s, c);
        assert(t =~= s.take(t.len() as int));
        assert forall|i: int| t.len() <= i < s.len() implies s[i] == c by {
            if i < front.len() {
                assert(front[i] == s[i]);
            }
        }
    } else {
        assert(s.take(s.len() as int) =~= s);
    }
}

/// A number that was written in decimal is the number that is read, with its sign.
pub proof fn law_number_round_trip(n: i64)
    ensures
        int_of(signed_decimal(n as int)) == Some(n),
{
    if n < 0 {
        let d = decimal((-n) as nat);
        lemma_decimal((-n) as nat);
        let s = signed_decimal(n as int);
        assert(s[0] == '-');
        assert(s.skip(1) =~= d);
    } else {
        let d = decimal(n as nat);
        lemma_decimal(n as nat);
        assert(d[0] != '+');
        assert(digit_of(d[0]) is Some);
    }
}

/// A number is written with digits only, and with a zero in front only where it is
/// zero.
pub proof fn law_decimal_has_no_leading_zero(n: nat)
    ensures
        decimal(n).len() > 0,
        forall|i: int| 0 <= i < decimal(n).len() ==> '0' <= #[trigger] decimal(n)[i] <= '9',
        decimal(n)[0] == '0' <==> n == 0,
    decreases n,
{
    lemma_decimal(n);
    let s = decimal(n);
    assert forall|i: int| 0 <= i < s.len() implies '0' <= #[trigger] s[i] <= '9' by {
        assert(digit_of(s[i]) is Some);
    }
    if n >= 10 {
        law_decimal_has_no_leading_zero(n / 10);
        assert(s[0] == decimal(n / 10)[0]);
    }
}

} // verus!
