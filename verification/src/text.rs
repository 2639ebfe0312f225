//! Small text helpers: decimal rendering, comparison and substring tests,
//! all stated over sequences of characters.

use vstd::prelude::*;

verus! {

/// The character of a decimal digit.
pub open spec fn digit_char(d: nat) -> char {
    if d == 0 {
        '0'
    } else if d == 1 {
        '1'
    } else if d == 2 {
        '2'
    } else if d == 3 {
        '3'
    } else if d == 4 {
        '4'
    } else if d == 5 {
        '5'
    } else if d == 6 {
        '6'
    } else if d == 7 {
        '7'
    } else if d == 8 {
        '8'
    } else {
        '9'
    }
}

/// `n` in decimal, without leading zeros (`0` is `"0"`).
pub open spec fn decimal(n: nat) -> Seq<char>
    decreases n,
{
    if n < 10 {
        seq![digit_char(n)]
    } else {
        decimal(n / 10).push(digit_char(n % 10))
    }
}

/// An integer in decimal, a minus sign in front of a negative one.
pub open spec fn decimal_signed(n: int) -> Seq<char> {
    if n < 0 {
        seq!['-'] + decimal((-n) as nat)
    } else {
        decimal(n as nat)
    }
}

/// The one-character text of a decimal digit.
fn digit_str(d: u64) -> (r: &'static str)
    requires
        d < 10,
    ensures
        r@ == seq![digit_char(d as nat)],
{
    proof {
        reveal_strlit("0");
        reveal_strlit("1");
        reveal_strlit("2");
        reveal_strlit("3");
        reveal_strlit("4");
        reveal_strlit("5");
        reveal_strlit("6");
        reveal_strlit("7");
        reveal_strlit("8");
        reveal_strlit("9");
    }
    match d {
        0 => "0",
        1 => "1",
        2 => "2",
        3 => "3",
        4 => "4",
        5 => "5",
        6 => "6",
        7 => "7",
        8 => "8",
        _ => "9",
    }
}

/// Append `n` in decimal.
pub fn push_decimal(out: &mut String, n: u64)
    ensures
        final(out)@ == old(out)@ + decimal(n as nat),
    decreases n,
{
    if n < 10 {
        out.append(digit_str(n));
    } else {
        push_decimal(out, n / 10);
        out.append(digit_str(n % 10));
    }
}

/// Append a signed integer in decimal.
pub fn push_decimal_signed(out: &mut String, n: i64)
    ensures
        final(out)@ == old(out)@ + decimal_signed(n as int),
{
    if n < 0 {
        proof {
            reveal_strlit("-");
        }
        out.append("-");
        let magnitude: u64 = (-(n as i128)) as u64;
        push_decimal(out, magnitude);
    } else {
        push_decimal(out, n as u64);
    }
}

/// The number a run of decimal digits reads as.
pub open spec fn digits_value(s: Seq<char>) -> nat
    decreases s.len(),
{
    if s.len() == 0 {
        0
    } else {
        10 * digits_value(s.drop_last()) + (s.last() as u32 - '0' as u32) as nat
    }
}

/// Reading a rendered number gives the number back, so two numbers with the
/// same decimal text are the same number.
pub proof fn decimal_reads_back(n: nat)
    ensures
        digits_value(decimal(n)) == n,
    decreases n,
{
    if n < 10 {
        let s = decimal(n);
        assert(s.drop_last() =~= Seq::<char>::empty());
        assert(digits_value(s.drop_last()) == 0);
    } else {
        decimal_reads_back(n / 10);
        let s = decimal(n);
        assert(s.drop_last() =~= decimal(n / 10));
        assert(s.last() == digit_char(n % 10));
    }
}

/// Decimal rendering is injective.
pub proof fn decimal_injective(a: nat, b: nat)
    requires
        decimal(a) == decimal(b),
    ensures
        a == b,
{
    decimal_reads_back(a);
    decimal_reads_back(b);
}

/// Do two texts hold the same characters?
pub fn same_text(a: &str, b: &str) -> (r: bool)
    ensures
        r == (a@ == b@),
{
    let left: String = a.to_owned();
    let right: String = b.to_owned();
    left == right
}

/// The characters of `s`.
pub fn chars_of(s: &str) -> (r: Vec<char>)
    ensures
        r@ == s@,
{
    let mut out: Vec<char> = Vec::new();
    for c in it: s.chars()
        invariant
            it.seq() == s@,
            out@ == s@.take(it.index() as int),
    {
        assert(s@.take(it.index() as int + 1) =~= s@.take(it.index() as int).push(c));
        out.push(c);
    }
    assert(s@.take(s@.len() as int) =~= s@);
    out
}

/// Does `needle` occur in `hay` starting at `at`?
pub open spec fn occurs_at(hay: Seq<char>, needle: Seq<char>, at: int) -> bool {
    &&& 0 <= at
    &&& at + needle.len() <= hay.len()
    &&& hay.subrange(at, at + needle.len()) == needle
}

/// Does `needle` occur anywhere in `hay`?
pub open spec fn occurs_in(hay: Seq<char>, needle: Seq<char>) -> bool {
    exists|at: int| occurs_at(hay, needle, at)
}

/// Compare the run of `hay` at `at` with `needle`.
pub fn run_matches(hay: &Vec<char>, needle: &Vec<char>, at: usize) -> (r: bool)
    requires
        at + needle@.len() <= hay@.len(),
    ensures
        r == occurs_at(hay@, needle@, at as int),
{
    let mut i: usize = 0;
    while i < needle.len()
        invariant
            i <= needle@.len(),
            at + needle.len() <= hay.len(),
            forall|k: int| 0 <= k < i ==> hay@[at + k] == needle@[k],
        decreases needle@.len() - i,
    {
        if hay[at + i] != needle[i] {
            assert(hay@.subrange(at as int, at + needle@.len())[i as int] != needle@[i as int]);
            return false;
        }
        i += 1;
    }
    assert(hay@.subrange(at as int, at + needle@.len()) =~= needle@);
    true
}

/// Does `needle` occur in `hay`?
pub fn contains_text(hay: &str, needle: &str) -> (r: bool)
    ensures
        r == occurs_in(hay@, needle@),
{
    let h: Vec<char> = chars_of(hay);
    let n: Vec<char> = chars_of(needle);
    if n.len() > h.len() {
        return false;
    }
    let last: usize = h.len() - n.len();
    let mut at: usize = 0;
    while at <= last
        invariant
            h@ == hay@,
            n@ == needle@,
            last == h@.len() - n@.len(),
            at <= last + 1,
            forall|k: int| 0 <= k < at ==> !occurs_at(hay@, needle@, k),
        decreases last + 1 - at,
    {
        if run_matches(&h, &n, at) {
            assert(occurs_at(hay@, needle@, at as int));
            return true;
        }
        if at == last {
            assert forall|k: int| !occurs_at(hay@, needle@, k) by {
                if occurs_at(hay@, needle@, k) {
                    assert(k <= last);
                    if k < at {
                    } else {
                        assert(k == at);
                    }
                }
            }
            return false;
        }
        at += 1;
    }
    false
}

/// Does `hay` start with `needle`?
pub fn starts_with_text(hay: &str, needle: &str) -> (r: bool)
    ensures
        r == occurs_at(hay@, needle@, 0),
{
    let h: Vec<char> = chars_of(hay);
    let n: Vec<char> = chars_of(needle);
    if n.len() > h.len() {
        return false;
    }
    run_matches(&h, &n, 0)
}

/// Does `hay` end with `needle`?
pub fn ends_with_text(hay: &str, needle: &str) -> (r: bool)
    ensures
        r == occurs_at(hay@, needle@, hay@.len() - needle@.len()),
{
    let h: Vec<char> = chars_of(hay);
    let n: Vec<char> = chars_of(needle);
    if n.len() > h.len() {
        return false;
    }
    run_matches(&h, &n, h.len() - n.len())
}

/// Numbers in decimal, separated by commas.
pub open spec fn list_items(v: Seq<u64>) -> Seq<char>
    decreases v.len(),
{
    if v.len() == 0 {
        Seq::empty()
    } else if v.len() == 1 {
        decimal(v[0] as nat)
    } else {
        list_items(v.drop_last()) + ", "@ + decimal(v.last() as nat)
    }
}

/// A list of numbers in square brackets.
pub open spec fn list_text(v: Seq<u64>) -> Seq<char> {
    "["@ + list_items(v) + "]"@
}

/// Append a list of numbers in square brackets.
pub fn push_list(out: &mut String, v: &Vec<u64>)
    ensures
        final(out)@ == old(out)@ + list_text(v@),
{
    out.append("[");
    let mut i: usize = 0;
    assert(v@.take(0) =~= Seq::<u64>::empty());
    while i < v.len()
        invariant
            i <= v@.len(),
            out@ == old(out)@ + "["@ + list_items(v@.take(i as int)),
        decreases v@.len() - i,
    {
        if i > 0 {
            out.append(", ");
        }
        push_decimal(out, v[i]);
        proof {
            let next = v@.take(i + 1);
            assert(next.drop_last() =~= v@.take(i as int));
            assert(next.last() == v@[i as int]);
        }
        i += 1;
    }
    assert(v@.take(i as int) =~= v@);
    out.append("]");
}

/// Is every character a decimal digit?
pub open spec fn all_digits(s: Seq<char>) -> bool {
    forall|i: int| 0 <= i < s.len() ==> '0' as u32 <= (#[trigger] s[i]) as u32 <= '9' as u32
}

/// The number a text reads as: decimal digits, a plus sign allowed in front,
/// at most `usize::MAX`.
pub open spec fn parsed_size(s: Seq<char>) -> Option<nat> {
    let body = if s.len() > 0 && s[0] == '+' {
        s.skip(1)
    } else {
        s
    };
    if body.len() > 0 && all_digits(body) && digits_value(body) <= usize::MAX {
        Some(digits_value(body))
    } else {
        None
    }
}

/// A leading run of digits reads as at most the whole.
pub(crate) proof fn lemma_digits_prefix(s: Seq<char>, k: int)
    requires
        0 <= k <= s.len(),
        all_digits(s),
    ensures
        digits_value(s.take(k)) <= digits_value(s),
    decreases s.len(),
{
    if k == s.len() {
        assert(s.take(k) =~= s);
    } else {
        assert(s.drop_last().take(k) =~= s.take(k));
        assert(all_digits(s.drop_last())) by {
            assert forall|i: int| 0 <= i < s.drop_last().len() implies '0' as u32
                <= (#[trigger] s.drop_last()[i]) as u32 <= '9' as u32 by {
                assert(s.drop_last()[i] == s[i]);
            }
        }
        lemma_digits_prefix(s.drop_last(), k);
    }
}

/// Read a number from the characters of `s`.
pub fn parse_size(s: &Vec<char>) -> (r: Option<usize>)
    ensures
        match r {
            Some(n) => parsed_size(s@) == Some(n as nat),
            None => parsed_size(s@) is None,
        },
{
    let mut i: usize = 0;
    if s.len() > 0 && s[0] == '+' {
        i = 1;
    }
    let ghost body = if s@.len() > 0 && s@[0] == '+' {
        s@.skip(1)
    } else {
        s@
    };
    let start: usize = i;
    assert(body =~= s@.skip(start as int));
    if i == s.len() {
        return None;
    }
    let mut n: usize = 0;
    assert(body.take(0) =~= Seq::<char>::empty());
    while i < s.len()
        invariant
            start <= i <= s@.len(),
            body == s@.skip(start as int),
            parsed_size(s@) == (if body.len() > 0 && all_digits(body) && digits_value(body)
                <= usize::MAX {
                Some(digits_value(body))
            } else {
                None
            }),
            n == digits_value(body.take(i - start)),
            forall|k: int|
                0 <= k < i - start ==> '0' as u32 <= (#[trigger] body[k]) as u32 <= '9' as u32,
        decreases s@.len() - i,
    {
        let c: u32 = s[i] as u32;
        proof {
            let next = body.take(i - start + 1);
            assert(next.drop_last() =~= body.take(i - start));
            assert(next.last() == s@[i as int]);
            assert(body[i - start] == s@[i as int]);
        }
        if c < '0' as u32 || c > '9' as u32 {
            return None;
        }
        let d: usize = (c - '0' as u32) as usize;
        let scaled: usize = match n.checked_mul(10) {
            Some(v) => v,
            None => {
                proof {
                    if all_digits(body) {
                        lemma_digits_prefix(body, i - start + 1);
                    }
                }
                return None;
            },
        };
        n = match scaled.checked_add(d) {
            Some(v) => v,
            None => {
                proof {
                    if all_digits(body) {
                        lemma_digits_prefix(body, i - start + 1);
                    }
                }
                return None;
            },
        };
        i += 1;
    }
    assert(body.take(i - start) =~= body);
    Some(n)
}

/// The first place from `from` on where `c` stands.
pub open spec fn first_char(s: Seq<char>, c: char, from: int) -> Option<int>
    decreases s.len() - from,
{
    if from < 0 || from >= s.len() {
        None
    } else if s[from] == c {
        Some(from)
    } else {
        first_char(s, c, from + 1)
    }
}

/// Find the first place where `c` stands.
pub fn find_char(s: &Vec<char>, c: char) -> (r: Option<usize>)
    ensures
        match r {
            Some(i) => first_char(s@, c, 0) == Some(i as int) && i < s@.len() && s@[i as int]
                == c,
            None => first_char(s@, c, 0) is None,
        },
{
    let mut i: usize = 0;
    while i < s.len()
        invariant
            i <= s@.len(),
            first_char(s@, c, 0) == first_char(s@, c, i as int),
        decreases s@.len() - i,
    {
        if s[i] == c {
            return Some(i);
        }
        i += 1;
    }
    None
}

/// Copy a run of characters.
pub fn run_of(s: &Vec<char>, from: usize, to: usize) -> (r: Vec<char>)
    requires
        from <= to <= s@.len(),
    ensures
        r@ == s@.subrange(from as int, to as int),
{
    let mut out: Vec<char> = Vec::new();
    let mut i: usize = from;
    while i < to
        invariant
            from <= i <= to <= s@.len(),
            out@ == s@.subrange(from as int, i as int),
        decreases to - i,
    {
        out.push(s[i]);
        assert(s@.subrange(from as int, i + 1) =~= s@.subrange(from as int, i as int).push(
            s@[i as int],
        ));
        i += 1;
    }
    out
}

/// Do these characters spell `text`?
pub fn spells(s: &Vec<char>, text: &str) -> (r: bool)
    ensures
        r == (s@ == text@),
{
    let t: Vec<char> = chars_of(text);
    if s.len() != t.len() {
        return false;
    }
    let mut i: usize = 0;
    while i < s.len()
        invariant
            i <= s@.len(),
            s@.len() == t@.len(),
            t@ == text@,
            forall|k: int| 0 <= k < i ==> s@[k] == t@[k],
        decreases s@.len() - i,
    {
        if s[i] != t[i] {
            return false;
        }
        i += 1;
    }
    assert(s@ =~= t@);
    true
}

/// A rendered number is at least one digit and nothing but digits.
pub proof fn decimal_is_digits(n: nat)
    ensures
        decimal(n).len() > 0,
        all_digits(decimal(n)),
    decreases n,
{
    if n >= 10 {
        decimal_is_digits(n / 10);
    }
}

/// A rendered number parses back to itself.
pub proof fn decimal_parses_back(n: nat)
    requires
        n <= usize::MAX,
    ensures
        parsed_size(decimal(n)) == Some(n),
{
    decimal_is_digits(n);
    decimal_reads_back(n);
    assert('0' as u32 <= decimal(n)[0] as u32);
}

/// A run of digits followed by a dot has its first dot there.
pub proof fn first_dot_after_digits(s: Seq<char>, len: int, from: int)
    requires
        0 <= from <= len < s.len(),
        all_digits(s.take(len)),
        s[len] == '.',
    ensures
        first_char(s, '.', from) == Some(len),
    decreases len - from,
{
    if from < len {
        assert(s.take(len)[from] == s[from]);
        first_dot_after_digits(s, len, from + 1);
    }
}

/// What the standard `{:?}` formatting makes of a text: the text in double
/// quotes, with what is not printable escaped.
pub uninterp spec fn debug_text(s: Seq<char>) -> Seq<char>;

/// Calls `format!` with `{:?}` on a text. Claimed: the result depends on the
/// text alone. Which characters come out escaped is left unsaid.
#[verifier::external_body]
fn quoted(s: &str) -> (r: String)
    ensures
        r@ == debug_text(s@),
{
    format!("{:?}", s)
}

/// Append a text as `{:?}` writes it.
pub fn push_debug(out: &mut String, s: &str)
    ensures
        final(out)@ == old(out)@ + debug_text(s@),
{
    let q: String = quoted(s);
    out.append(q.as_str());
}

/// The white space characters.
pub open spec fn is_white(c: char) -> bool {
    let n = c as u32;
    ||| 0x09 <= n <= 0x0d
    ||| n == 0x20
    ||| n == 0x85
    ||| n == 0xa0
    ||| n == 0x1680
    ||| 0x2000 <= n <= 0x200a
    ||| n == 0x2028
    ||| n == 0x2029
    ||| n == 0x202f
    ||| n == 0x205f
    ||| n == 0x3000
}

/// Is this a white space character?
fn white(c: char) -> (r: bool)
    ensures
        r == is_white(c),
{
    let n: u32 = c as u32;
    (0x09 <= n && n <= 0x0d) || n == 0x20 || n == 0x85 || n == 0xa0 || n == 0x1680 || (0x2000 <= n
        && n <= 0x200a) || n == 0x2028 || n == 0x2029 || n == 0x202f || n == 0x205f || n == 0x3000
}

/// The text without leading white space.
pub open spec fn trimmed_start(s: Seq<char>) -> Seq<char>
    decreases s.len(),
{
    if s.len() > 0 && is_white(s[0]) {
        trimmed_start(s.subrange(1, s.len() as int))
    } else {
        s
    }
}

/// The text without trailing white space.
pub open spec fn trimmed_end(s: Seq<char>) -> Seq<char>
    decreases s.len(),
{
    if s.len() > 0 && is_white(s.last()) {
        trimmed_end(s.drop_last())
    } else {
        s
    }
}

/// The text without white space around it.
pub open spec fn trimmed(s: Seq<char>) -> Seq<char> {
    trimmed_end(trimmed_start(s))
}

/// Drop the white space behind a text.
pub fn trim_end(s: &Vec<char>) -> (r: Vec<char>)
    ensures
        r@ == trimmed_end(s@),
{
    let mut to: usize = s.len();
    assert(s@.take(to as int) =~= s@);
    while to > 0 && white(s[to - 1])
        invariant
            to <= s@.len(),
            trimmed_end(s@) == trimmed_end(s@.take(to as int)),
        decreases to,
    {
        proof {
            let rest = s@.take(to as int);
            assert(rest.last() == s@[to - 1]);
            assert(rest.drop_last() =~= s@.take(to - 1));
        }
        to -= 1;
    }
    proof {
        let rest = s@.take(to as int);
        if rest.len() > 0 {
            assert(rest.last() == s@[to - 1]);
        }
    }
    let r: Vec<char> = run_of(s, 0, to);
    assert(r@ =~= s@.take(to as int));
    r
}

/// Drop the white space around a text.
pub fn trim(s: &Vec<char>) -> (r: Vec<char>)
    ensures
        r@ == trimmed(s@),
{
    let mut from: usize = 0;
    assert(s@.subrange(0, s@.len() as int) =~= s@);
    while from < s.len() && white(s[from])
        invariant
            from <= s@.len(),
            trimmed_start(s@) == trimmed_start(s@.subrange(from as int, s@.len() as int)),
        decreases s@.len() - from,
    {
        proof {
            let rest = s@.subrange(from as int, s@.len() as int);
            assert(rest[0] == s@[from as int]);
            assert(rest.subrange(1, rest.len() as int) =~= s@.subrange(
                from + 1,
                s@.len() as int,
            ));
        }
        from += 1;
    }
    let body: Vec<char> = run_of(s, from, s.len());
    proof {
        if from < s@.len() {
            assert(body@[0] == s@[from as int]);
        }
        assert(trimmed_start(s@) == body@);
    }
    trim_end(&body)
}

/// A letter A to Z in lower case; any other character as it is.
pub open spec fn lower(c: char) -> char {
    if 'A' <= c && c <= 'Z' {
        ((c as u32 + 32) as u8) as char
    } else {
        c
    }
}

/// The text with A to Z in lower case.
pub open spec fn lowered(s: Seq<char>) -> Seq<char> {
    s.map(|i: int, c: char| lower(c))
}

/// Put A to Z in lower case.
pub fn lowercase(s: &Vec<char>) -> (r: Vec<char>)
    ensures
        r@ == lowered(s@),
{
    let mut out: Vec<char> = Vec::new();
    let mut i: usize = 0;
    while i < s.len()
        invariant
            i <= s@.len(),
            out@.len() == i,
            forall|k: int| 0 <= k < i ==> (#[trigger] out@[k]) == lower(s@[k]),
        decreases s@.len() - i,
    {
        let c: char = s[i];
        if 'A' <= c && c <= 'Z' {
            let code: u8 = (c as u32 + 32) as u8;
            out.push(code as char);
        } else {
            out.push(c);
        }
        i += 1;
    }
    assert(out@ =~= lowered(s@));
    out
}

/// The pieces of a text between the separators.
pub open spec fn pieces(s: Seq<char>, sep: char) -> Seq<Seq<char>>
    decreases s.len(),
{
    match first_char(s, sep, 0) {
        Some(i) => if 0 <= i < s.len() {
            seq![s.take(i)] + pieces(s.subrange(i + 1, s.len() as int), sep)
        } else {
            seq![s]
        },
        None => seq![s],
    }
}

/// The characters of a list of texts.
pub open spec fn char_lists(v: Seq<Vec<char>>) -> Seq<Seq<char>> {
    v.map(|i: int, t: Vec<char>| t@)
}

/// Cut a text at the separators.
pub fn split_at(s: &Vec<char>, sep: char) -> (r: Vec<Vec<char>>)
    ensures
        char_lists(r@) == pieces(s@, sep),
        r@.len() >= 1,
{
    let mut out: Vec<Vec<char>> = Vec::new();
    let mut rest: Vec<char> = run_of(s, 0, s.len());
    proof {
        assert(rest@ =~= s@);
        assert(char_lists(out@) + pieces(rest@, sep) =~= pieces(s@, sep));
    }
    loop
        invariant
            char_lists(out@) + pieces(rest@, sep) == pieces(s@, sep),
        decreases rest@.len(),
    {
        let ghost before = char_lists(out@);
        let at: Option<usize> = find_char(&rest, sep);
        match at {
            Some(i) => {
                assert(i < rest.len());
                let piece: Vec<char> = run_of(&rest, 0, i);
                let tail: Vec<char> = run_of(&rest, i + 1, rest.len());
                proof {
                    assert(piece@ =~= rest@.take(i as int));
                }
                out.push(piece);
                proof {
                    assert(char_lists(out@) =~= before.push(piece@));
                    assert(before.push(piece@) + pieces(tail@, sep) =~= before + (seq![piece@]
                        + pieces(tail@, sep)));
                }
                rest = tail;
            },
            None => {
                let ghost last = rest@;
                out.push(rest);
                proof {
                    assert(char_lists(out@) =~= before.push(last));
                    assert(before.push(last) =~= before + seq![last]);
                }
                return out;
            },
        }
    }
}

/// `String::push` of the standard library: the character is appended.
pub assume_specification[ std::string::String::push ](s: &mut String, c: char)
    ensures
        final(s)@ == old(s)@.push(c),
;

/// The characters as a string.
pub fn string_of(s: &Vec<char>) -> (r: String)
    ensures
        r@ == s@,
{
    let mut out: String = String::new();
    let mut i: usize = 0;
    while i < s.len()
        invariant
            i <= s@.len(),
            out@ == s@.take(i as int),
        decreases s@.len() - i,
    {
        out.push(s[i]);
        assert(s@.take(i + 1) =~= s@.take(i as int).push(s@[i as int]));
        i += 1;
    }
    assert(s@.take(i as int) =~= s@);
    out
}

} // verus!
