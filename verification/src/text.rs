//! Text helpers: every function works on the characters of a string and states
//! its result over `Seq<char>`.

use vstd::prelude::*;

verus! {

/// `String::push` appends one character at the end.
pub assume_specification[ String::push ](s: &mut String, c: char)
    ensures
        final(s)@ == old(s)@.push(c),
;

/// The characters of Unicode's `White_Space` property.
pub open spec fn white_space(c: char) -> bool {
    ||| 9 <= c as u32 <= 13
    ||| c as u32 == 0x20
    ||| c as u32 == 0x85
    ||| c as u32 == 0xA0
    ||| c as u32 == 0x1680
    ||| 0x2000 <= c as u32 <= 0x200A
    ||| c as u32 == 0x2028
    ||| c as u32 == 0x2029
    ||| c as u32 == 0x202F
    ||| c as u32 == 0x205F
    ||| c as u32 == 0x3000
}

/// `s` without its leading white space.
pub open spec fn trim_start_of(s: Seq<char>) -> Seq<char>
    decreases s.len(),
{
    if s.len() > 0 && white_space(s[0]) {
        trim_start_of(s.skip(1))
    } else {
        s
    }
}

/// `s` without its trailing white space.
pub open spec fn trim_end_of(s: Seq<char>) -> Seq<char>
    decreases s.len(),
{
    if s.len() > 0 && white_space(s.last()) {
        trim_end_of(s.drop_last())
    } else {
        s
    }
}

/// `s` without white space at either end.
pub open spec fn trimmed(s: Seq<char>) -> Seq<char> {
    trim_end_of(trim_start_of(s))
}

/// Nothing but white space.
pub open spec fn blank(s: Seq<char>) -> bool {
    forall|i: int| 0 <= i < s.len() ==> white_space(#[trigger] s[i])
}

/// ASCII lower case of one character; every other character stays.
pub open spec fn lower(c: char) -> char {
    if 'A' <= c <= 'Z' {
        ((c as u32 + 32) as u32) as char
    } else {
        c
    }
}

/// ASCII lower case of each character.
pub open spec fn lowered(s: Seq<char>) -> Seq<char> {
    s.map_values(|c: char| lower(c))
}

/// The parts with `sep` between neighbours.
pub open spec fn joined(parts: Seq<Seq<char>>, sep: Seq<char>) -> Seq<char>
    decreases parts.len(),
{
    if parts.len() == 0 {
        Seq::empty()
    } else if parts.len() == 1 {
        parts[0]
    } else {
        joined(parts.drop_last(), sep) + sep + parts.last()
    }
}

/// The pieces of `s` between occurrences of `c`; always at least one.
pub open spec fn split_on(s: Seq<char>, c: char) -> Seq<Seq<char>>
    decreases s.len(),
{
    if s.len() == 0 {
        seq![Seq::empty()]
    } else {
        let before = split_on(s.drop_last(), c);
        if s.last() == c {
            before.push(Seq::empty())
        } else {
            before.drop_last().push(before.last().push(s.last()))
        }
    }
}

/// `i` is the first place of `c` in `s`.
pub open spec fn first_at(s: Seq<char>, c: char, i: int) -> bool {
    &&& 0 <= i < s.len()
    &&& s[i] == c
    &&& forall|j: int| 0 <= j < i ==> s[j] != c
}

/// `i` is the last place of `c` in `s`.
pub open spec fn last_at(s: Seq<char>, c: char, i: int) -> bool {
    &&& 0 <= i < s.len()
    &&& s[i] == c
    &&& forall|j: int| i < j < s.len() ==> s[j] != c
}

/// `s` begins with `prefix`.
pub open spec fn begins(s: Seq<char>, prefix: Seq<char>) -> bool {
    s.len() >= prefix.len() && s.take(prefix.len() as int) == prefix
}

/// `needle` stands in `s` at `at`.
pub open spec fn stands_at(s: Seq<char>, needle: Seq<char>, at: int) -> bool {
    0 <= at && at + needle.len() <= s.len() && s.subrange(at, at + needle.len()) == needle
}

/// `needle` stands somewhere in `s`.
pub open spec fn holds_text(s: Seq<char>, needle: Seq<char>) -> bool {
    exists|at: int| stands_at(s, needle, at)
}

pub open spec fn digit(c: char) -> bool {
    '0' <= c <= '9'
}

pub open spec fn all_digits(s: Seq<char>) -> bool {
    s.len() > 0 && forall|i: int| 0 <= i < s.len() ==> digit(#[trigger] s[i])
}

/// The number that the digits of `s` write down.
pub open spec fn digits_value(s: Seq<char>) -> nat
    decreases s.len(),
{
    if s.len() == 0 {
        0
    } else {
        digits_value(s.drop_last()) * 10 + (s.last() as u32 - '0' as u32) as nat
    }
}

/// The unsigned number that `s` writes: digits, with at most one `+` before
/// them, and a value of at most `max`.
pub open spec fn unsigned_value(s: Seq<char>, max: nat) -> Option<nat> {
    let body = if s.len() > 0 && s[0] == '+' {
        s.skip(1)
    } else {
        s
    };
    if all_digits(body) && digits_value(body) <= max {
        Some(digits_value(body))
    } else {
        None
    }
}

/// The `i64` that `s` writes: digits, with at most one sign before them.
pub open spec fn i64_value(s: Seq<char>) -> Option<int> {
    let body = if s.len() > 0 && (s[0] == '+' || s[0] == '-') {
        s.skip(1)
    } else {
        s
    };
    let magnitude = digits_value(body) as int;
    let value = if s.len() > 0 && s[0] == '-' {
        -magnitude
    } else {
        magnitude
    };
    if all_digits(body) && i64::MIN <= value <= i64::MAX {
        Some(value)
    } else {
        None
    }
}

/// The decimal digits of `n`, without leading zeros.
pub open spec fn decimal(n: nat) -> Seq<char>
    decreases n,
{
    if n < 10 {
        seq![(('0' as u32 + n) as u32) as char]
    } else {
        decimal(n / 10).push((('0' as u32 + n % 10) as u32) as char)
    }
}

/// The characters of `s`, one by one.
pub fn to_chars(s: &str) -> (r: Vec<char>)
    ensures
        r@ == s@,
{
    let mut out: Vec<char> = Vec::new();
    for c in it: s.chars()
        invariant
            out@ == s@.take(it.index() as int),
            it.seq() == s@,
    {
        out.push(c);
        assert(out@ =~= s@.take(it.index() + 1));
    }
    assert(out@ =~= s@);
    out
}

/// The string made of the characters `from..to` of `chars`.
pub fn from_chars(chars: &Vec<char>, from: usize, to: usize) -> (r: String)
    requires
        from <= to <= chars@.len(),
    ensures
        r@ == chars@.subrange(from as int, to as int),
{
    let mut out = String::new();
    let mut i: usize = from;
    while i < to
        invariant
            from <= i <= to <= chars@.len(),
            out@ == chars@.subrange(from as int, i as int),
        decreases to - i,
    {
        out.push(chars[i]);
        assert(out@ =~= chars@.subrange(from as int, i + 1));
        i += 1;
    }
    assert(out@ =~= chars@.subrange(from as int, to as int));
    out
}

/// Whether two strings hold the same characters.
pub fn same(a: &str, b: &str) -> (r: bool)
    ensures
        r == (a@ == b@),
{
    let x = to_chars(a);
    let y = to_chars(b);
    if x.len() != y.len() {
        return false;
    }
    let mut i: usize = 0;
    while i < x.len()
        invariant
            i <= x@.len(),
            x@.len() == y@.len(),
            x@ == a@,
            y@ == b@,
            forall|j: int| 0 <= j < i ==> x@[j] == y@[j],
        decreases x@.len() - i,
    {
        if x[i] != y[i] {
            assert(a@[i as int] != b@[i as int]);
            return false;
        }
        i += 1;
    }
    assert(a@ =~= b@);
    true
}

/// Whether `c` is white space.
pub fn is_white_space(c: char) -> (r: bool)
    ensures
        r == white_space(c),
{
    let n: u32 = c as u32;
    (9 <= n && n <= 13) || n == 0x20 || n == 0x85 || n == 0xA0 || n == 0x1680 || (0x2000 <= n && n
        <= 0x200A) || n == 0x2028 || n == 0x2029 || n == 0x202F || n == 0x205F || n == 0x3000
}

proof fn lemma_trim_start_skips(s: Seq<char>, k: int)
    requires
        0 <= k <= s.len(),
        forall|i: int| 0 <= i < k ==> white_space(#[trigger] s[i]),
        k < s.len() ==> !white_space(s[k]),
    ensures
        trim_start_of(s) == s.skip(k),
    decreases k,
{
    if k == 0 {
        assert(s.skip(0) =~= s);
    } else {
        let t = s.skip(1);
        assert forall|i: int| 0 <= i < k - 1 implies white_space(#[trigger] t[i]) by {
            assert(t[i] == s[i + 1]);
        }
        lemma_trim_start_skips(t, k - 1);
        assert(t.skip(k - 1) =~= s.skip(k));
    }
}

proof fn lemma_trim_end_drops(s: Seq<char>, k: int)
    requires
        0 <= k <= s.len(),
        forall|i: int| k <= i < s.len() ==> white_space(#[trigger] s[i]),
        k > 0 ==> !white_space(s[k - 1]),
    ensures
        trim_end_of(s) == s.take(k),
    decreases s.len() - k,
{
    if k == s.len() {
        assert(s.take(k) =~= s);
    } else {
        let t = s.drop_last();
        lemma_trim_end_drops(t, k);
        assert(t.take(k) =~= s.take(k));
    }
}

/// `s` without white space at either end.
pub fn trim(s: &str) -> (r: &str)
    ensures
        r@ == trimmed(s@),
{
    let chars = to_chars(s);
    let n: usize = chars.len();
    let mut from: usize = 0;
    while from < n && is_white_space(chars[from])
        invariant
            n == chars@.len(),
            from <= n,
            forall|i: int| 0 <= i < from ==> white_space(#[trigger] chars@[i]),
        decreases n - from,
    {
        from += 1;
    }
    let mut to: usize = n;
    while to > from && is_white_space(chars[to - 1])
        invariant
            n == chars@.len(),
            from <= to <= n,
            forall|i: int| to <= i < n ==> white_space(#[trigger] chars@[i]),
        decreases to,
    {
        to -= 1;
    }
    proof {
        lemma_trim_start_skips(s@, from as int);
        let t = s@.skip(from as int);
        assert forall|i: int| to - from <= i < t.len() implies white_space(#[trigger] t[i]) by {
            assert(t[i] == chars@[i + from]);
        }
        lemma_trim_end_drops(t, to - from);
        assert(t.take(to - from) =~= s@.subrange(from as int, to as int));
    }
    s.substring_char(from, to)
}

/// A text is blank exactly when trimming leaves nothing.
pub proof fn blank_is_trimmed_empty(s: Seq<char>)
    ensures
        blank(s) <==> trimmed(s).len() == 0,
{
    if blank(s) {
        lemma_trim_start_skips(s, s.len() as int);
        assert(trim_start_of(s) =~= Seq::empty());
    } else {
        let k = first_ink(s);
        lemma_first_ink(s);
        lemma_trim_start_skips(s, k);
        let t = s.skip(k);
        lemma_trim_end_keeps_ink(t);
    }
}

spec fn first_ink(s: Seq<char>) -> int
    decreases s.len(),
{
    if s.len() == 0 || !white_space(s[0]) {
        0
    } else {
        first_ink(s.skip(1)) + 1
    }
}

proof fn lemma_first_ink(s: Seq<char>)
    requires
        !blank(s),
    ensures
        0 <= first_ink(s) < s.len(),
        !white_space(s[first_ink(s)]),
        forall|i: int| 0 <= i < first_ink(s) ==> white_space(#[trigger] s[i]),
    decreases s.len(),
{
    if s.len() > 0 && white_space(s[0]) {
        let t = s.skip(1);
        let w = choose|i: int| 0 <= i < s.len() && !white_space(s[i]);
        assert(!white_space(t[w - 1]));
        lemma_first_ink(t);
        assert forall|i: int| 0 <= i < first_ink(s) implies white_space(#[trigger] s[i]) by {
            if i > 0 {
                assert(s[i] == t[i - 1]);
            }
        }
    }
}

proof fn lemma_trim_end_keeps_ink(s: Seq<char>)
    requires
        s.len() > 0,
        !white_space(s[0]),
    ensures
        trim_end_of(s).len() > 0,
    decreases s.len(),
{
    if white_space(s.last()) {
        lemma_trim_end_keeps_ink(s.drop_last());
    }
}

/// Whether `s` holds nothing but white space.
pub fn is_blank(s: &str) -> (r: bool)
    ensures
        r == blank(s@),
{
    proof {
        blank_is_trimmed_empty(s@);
    }
    trim(s).is_empty()
}

/// ASCII lower case of `c`.
pub fn lower_char(c: char) -> (r: char)
    ensures
        r == lower(c),
{
    if 'A' <= c && c <= 'Z' {
        ((c as u8) + 32) as char
    } else {
        c
    }
}

/// `s` with every ASCII capital in lower case.
pub fn to_lower(s: &str) -> (r: String)
    ensures
        r@ == lowered(s@),
{
    let chars = to_chars(s);
    let mut out = String::new();
    let mut i: usize = 0;
    while i < chars.len()
        invariant
            i <= chars@.len(),
            chars@ == s@,
            out@ == lowered(s@.take(i as int)),
        decreases chars@.len() - i,
    {
        out.push(lower_char(chars[i]));
        i += 1;
        assert(out@ =~= lowered(s@.take(i as int)));
    }
    assert(s@.take(i as int) =~= s@);
    out
}

/// The views of the strings of a list.
pub open spec fn views(parts: Seq<String>) -> Seq<Seq<char>> {
    parts.map_values(|p: String| p@)
}

/// The parts with `sep` between neighbours.
pub fn join(parts: &Vec<String>, sep: &str) -> (r: String)
    ensures
        r@ == joined(views(parts@), sep@),
{
    let mut out = String::new();
    let mut i: usize = 0;
    let ghost all = views(parts@);
    while i < parts.len()
        invariant
            i <= parts@.len(),
            all == views(parts@),
            out@ == joined(all.take(i as int), sep@),
        decreases parts@.len() - i,
    {
        proof {
            let next = all.take(i + 1);
            assert(next.drop_last() =~= all.take(i as int));
            assert(next.last() == parts@[i as int]@);
        }
        if i > 0 {
            out.append(sep);
        }
        out.append(parts[i].as_str());
        i += 1;
        proof {
            if i == 1 {
                assert(out@ =~= all.take(1)[0]);
            }
        }
    }
    assert(all.take(i as int) =~= all);
    out
}

/// The pieces of `s` between occurrences of `c`.
pub fn split(s: &str, c: char) -> (r: Vec<String>)
    ensures
        views(r@) == split_on(s@, c),
{
    let chars = to_chars(s);
    let mut out: Vec<String> = Vec::new();
    let mut piece = String::new();
    let mut i: usize = 0;
    assert(views(out@).push(piece@) =~= split_on(s@.take(0), c));
    while i < chars.len()
        invariant
            i <= chars@.len(),
            chars@ == s@,
            views(out@).push(piece@) == split_on(s@.take(i as int), c),
        decreases chars@.len() - i,
    {
        proof {
            let next = s@.take(i + 1);
            assert(next.drop_last() =~= s@.take(i as int));
            assert(next.last() == chars@[i as int]);
            assert(views(out@).push(piece@).drop_last() =~= views(out@));
        }
        if chars[i] == c {
            let ghost before = out@;
            let ghost last = piece@;
            out.push(piece);
            piece = String::new();
            assert(views(out@) =~= views(before).push(last));
        } else {
            piece.push(chars[i]);
        }
        i += 1;
    }
    let ghost before = out@;
    let ghost last = piece@;
    out.push(piece);
    proof {
        assert(views(out@) =~= views(before).push(last));
        assert(s@.take(i as int) =~= s@);
    }
    out
}

/// The first place of `c` in `s`.
pub fn find_char(s: &str, c: char) -> (r: Option<usize>)
    ensures
        match r {
            Some(i) => first_at(s@, c, i as int),
            None => !s@.contains(c),
        },
{
    let chars = to_chars(s);
    let mut i: usize = 0;
    while i < chars.len()
        invariant
            i <= chars@.len(),
            chars@ == s@,
            forall|j: int| 0 <= j < i ==> s@[j] != c,
        decreases chars@.len() - i,
    {
        if chars[i] == c {
            return Some(i);
        }
        i += 1;
    }
    None
}

/// The last place of `c` in `s`.
pub fn rfind_char(s: &str, c: char) -> (r: Option<usize>)
    ensures
        match r {
            Some(i) => last_at(s@, c, i as int) && i < usize::MAX,
            None => !s@.contains(c),
        },
{
    let chars = to_chars(s);
    let mut i: usize = chars.len();
    while i > 0
        invariant
            i <= chars@.len(),
            chars@ == s@,
            forall|j: int| i <= j < s@.len() ==> s@[j] != c,
        decreases i,
    {
        if chars[i - 1] == c {
            return Some(i - 1);
        }
        i -= 1;
    }
    None
}

/// What follows `prefix` in `s`, where `s` begins with it.
pub fn strip_prefix<'a>(s: &'a str, prefix: &str) -> (r: Option<&'a str>)
    ensures
        match r {
            Some(rest) => begins(s@, prefix@) && rest@ == s@.skip(prefix@.len() as int),
            None => !begins(s@, prefix@),
        },
{
    let n: usize = s.unicode_len();
    let k: usize = prefix.unicode_len();
    if k > n {
        return None;
    }
    let head = s.substring_char(0, k);
    assert(head@ =~= s@.take(k as int));
    if same(head, prefix) {
        let rest = s.substring_char(k, n);
        assert(rest@ =~= s@.skip(k as int));
        Some(rest)
    } else {
        None
    }
}

/// Whether `s` begins with `prefix`.
pub fn starts_with(s: &str, prefix: &str) -> (r: bool)
    ensures
        r == begins(s@, prefix@),
{
    strip_prefix(s, prefix).is_some()
}

/// Whether `needle` stands somewhere in `s`.
pub fn contains(s: &str, needle: &str) -> (r: bool)
    ensures
        r == holds_text(s@, needle@),
{
    let n: usize = s.unicode_len();
    let k: usize = needle.unicode_len();
    if k > n {
        return false;
    }
    let mut at: usize = 0;
    while at <= n - k
        invariant
            n == s@.len(),
            k == needle@.len(),
            k <= n,
            at <= n - k + 1,
            forall|j: int| 0 <= j < at ==> !stands_at(s@, needle@, j),
        decreases n - k + 1 - at,
    {
        let piece = s.substring_char(at, at + k);
        if same(piece, needle) {
            assert(stands_at(s@, needle@, at as int));
            return true;
        }
        assert(k > 0) by {
            if k == 0 {
                assert(piece@ =~= needle@);
            }
        }
        at += 1;
    }
    assert forall|j: int| !stands_at(s@, needle@, j) by {}
    false
}

proof fn lemma_value_of_more_digits(s: Seq<char>, k: int)
    requires
        0 <= k <= s.len(),
        forall|i: int| 0 <= i < s.len() ==> digit(#[trigger] s[i]),
    ensures
        digits_value(s.take(k)) <= digits_value(s),
    decreases s.len() - k,
{
    if k == s.len() {
        assert(s.take(k) =~= s);
    } else {
        lemma_value_of_more_digits(s, k + 1);
        let t = s.take(k + 1);
        assert(t.drop_last() =~= s.take(k));
        assert(digit(t.last())) by {
            assert(t.last() == s[k]);
        }
    }
}

/// The value of the digits `chars[from..]`, when there are any, nothing else
/// stands there, and the value is at most `max`.
fn digits_from(chars: &Vec<char>, from: usize, max: u64) -> (r: Option<u64>)
    requires
        from <= chars@.len(),
    ensures
        match r {
            Some(v) => all_digits(chars@.skip(from as int)) && v == digits_value(
                chars@.skip(from as int),
            ) && v <= max,
            None => !(all_digits(chars@.skip(from as int)) && digits_value(chars@.skip(from as int))
                <= max),
        },
{
    let ghost body = chars@.skip(from as int);
    if from == chars.len() {
        return None;
    }
    let mut value: u64 = 0;
    let mut i: usize = from;
    while i < chars.len()
        invariant
            from <= i <= chars@.len(),
            body == chars@.skip(from as int),
            forall|j: int| 0 <= j < i - from ==> digit(#[trigger] body[j]),
            value == digits_value(body.take(i - from)),
            value <= max,
        decreases chars@.len() - i,
    {
        let c: char = chars[i];
        assert(body[i - from] == c);
        if c < '0' || c > '9' {
            return None;
        }
        let d: u64 = (c as u32 - '0' as u32) as u64;
        proof {
            let next = body.take(i + 1 - from);
            assert(next.drop_last() =~= body.take(i - from));
            assert(next.last() == c);
            if all_digits(body) {
                lemma_value_of_more_digits(body, i + 1 - from);
            }
        }
        if value > max / 10 || d > max - value * 10 {
            return None;
        }
        value = value * 10 + d;
        i += 1;
    }
    assert(body.take(i - from) =~= body);
    Some(value)
}

/// The unsigned number that `s` writes, up to `max`.
fn parse_up_to(s: &str, max: u64) -> (r: Option<u64>)
    ensures
        match r {
            Some(v) => unsigned_value(s@, max as nat) == Some(v as nat),
            None => unsigned_value(s@, max as nat) is None,
        },
{
    let chars = to_chars(s);
    let mut from: usize = 0;
    if chars.len() > 0 && chars[0] == '+' {
        from = 1;
    }
    proof {
        if from == 0 {
            assert(s@.skip(0) =~= s@);
        }
    }
    digits_from(&chars, from, max)
}

/// `s` read as a `u64`.
pub fn parse_u64(s: &str) -> (r: Option<u64>)
    ensures
        match r {
            Some(v) => unsigned_value(s@, u64::MAX as nat) == Some(v as nat),
            None => unsigned_value(s@, u64::MAX as nat) is None,
        },
{
    parse_up_to(s, u64::MAX)
}

/// `s` read as a `u16`.
pub fn parse_u16(s: &str) -> (r: Option<u16>)
    ensures
        match r {
            Some(v) => unsigned_value(s@, u16::MAX as nat) == Some(v as nat),
            None => unsigned_value(s@, u16::MAX as nat) is None,
        },
{
    match parse_up_to(s, u16::MAX as u64) {
        Some(v) => Some(v as u16),
        None => None,
    }
}

/// `s` read as a `usize`.
pub fn parse_usize(s: &str) -> (r: Option<usize>)
    ensures
        match r {
            Some(v) => unsigned_value(s@, usize::MAX as nat) == Some(v as nat),
            None => unsigned_value(s@, usize::MAX as nat) is None,
        },
{
    match parse_up_to(s, usize::MAX as u64) {
        Some(v) => Some(v as usize),
        None => None,
    }
}

/// `s` read as an `i64`.
pub fn parse_i64(s: &str) -> (r: Option<i64>)
    ensures
        match r {
            Some(v) => i64_value(s@) == Some(v as int),
            None => i64_value(s@) is None,
        },
{
    let chars = to_chars(s);
    let mut from: usize = 0;
    let mut negative = false;
    if chars.len() > 0 && (chars[0] == '+' || chars[0] == '-') {
        from = 1;
        negative = chars[0] == '-';
    }
    proof {
        if from == 0 {
            assert(s@.skip(0) =~= s@);
        }
    }
    if negative {
        match digits_from(&chars, from, 0x8000_0000_0000_0000) {
            Some(v) => {
                if v == 0x8000_0000_0000_0000 {
                    Some(i64::MIN)
                } else {
                    Some(-(v as i64))
                }
            },
            None => None,
        }
    } else {
        match digits_from(&chars, from, i64::MAX as u64) {
            Some(v) => Some(v as i64),
            None => None,
        }
    }
}

/// The decimal digits of `n`.
pub fn show_u64(n: u64) -> (r: String)
    ensures
        r@ == decimal(n as nat),
    decreases n,
{
    let mut out = if n < 10 {
        String::new()
    } else {
        show_u64(n / 10)
    };
    let c: char = (48 + (n % 10) as u8) as char;
    out.push(c);
    assert(out@ =~= decimal(n as nat));
    out
}

/// Reading back the decimal digits of a number gives the number.
pub proof fn decimal_reads_back(n: nat, max: nat)
    requires
        n <= max,
    ensures
        unsigned_value(decimal(n), max) == Some(n),
        all_digits(decimal(n)),
        digits_value(decimal(n)) == n,
    decreases n,
{
    let s = decimal(n);
    if n < 10 {
        assert(s.drop_last() =~= Seq::<char>::empty());
        assert(digits_value(s.drop_last()) == 0);
    } else {
        decimal_reads_back(n / 10, max);
        assert(s.drop_last() =~= decimal(n / 10));
        assert forall|i: int| 0 <= i < s.len() implies digit(#[trigger] s[i]) by {
            if i < s.len() - 1 {
                assert(s[i] == decimal(n / 10)[i]);
            }
        }
    }
    assert(digit(s[0]));
}

/// Digits only, perhaps none.
pub open spec fn only_digits(s: Seq<char>) -> bool {
    forall|i: int| 0 <= i < s.len() ==> digit(#[trigger] s[i])
}

/// Digits with at most one `.` among them, at least one digit in all.
pub open spec fn mantissa_text(s: Seq<char>) -> bool {
    ||| all_digits(s)
    ||| exists|d: int| dotted_at(s, d)
}

pub open spec fn dotted_at(s: Seq<char>, d: int) -> bool {
    &&& 0 <= d < s.len()
    &&& s[d] == '.'
    &&& s.len() > 1
    &&& only_digits(s.take(d))
    &&& only_digits(s.skip(d + 1))
}

/// `s` without one sign at its start.
pub open spec fn unsigned_part(s: Seq<char>) -> Seq<char> {
    if s.len() > 0 && (s[0] == '+' || s[0] == '-') {
        s.skip(1)
    } else {
        s
    }
}

/// A mantissa, an `e` at `k`, and an exponent of digits with at most one sign.
pub open spec fn exponent_at(s: Seq<char>, k: int) -> bool {
    &&& 0 <= k < s.len()
    &&& (s[k] == 'e' || s[k] == 'E')
    &&& mantissa_text(s.take(k))
    &&& all_digits(unsigned_part(s.skip(k + 1)))
}

/// The texts that std reads as a double: a decimal number with an optional
/// exponent, or `inf`, `infinity` or `nan` in any case, with at most one sign.
pub open spec fn float_text(s: Seq<char>) -> bool {
    let body = unsigned_part(s);
    ||| lowered(body) == "inf"@
    ||| lowered(body) == "infinity"@
    ||| lowered(body) == "nan"@
    ||| mantissa_text(body)
    ||| exists|k: int| exponent_at(body, k)
}

/// Whether `chars[from..to]` holds digits only.
fn digits_between(chars: &Vec<char>, from: usize, to: usize) -> (r: bool)
    requires
        from <= to <= chars@.len(),
    ensures
        r == only_digits(chars@.subrange(from as int, to as int)),
{
    let ghost body = chars@.subrange(from as int, to as int);
    let mut i: usize = from;
    while i < to
        invariant
            from <= i <= to <= chars@.len(),
            body == chars@.subrange(from as int, to as int),
            forall|j: int| 0 <= j < i - from ==> digit(#[trigger] body[j]),
        decreases to - i,
    {
        assert(body[i - from] == chars@[i as int]);
        if chars[i] < '0' || chars[i] > '9' {
            return false;
        }
        i += 1;
    }
    true
}

/// Whether `chars[from..to]` is a mantissa.
fn mantissa_between(chars: &Vec<char>, from: usize, to: usize) -> (r: bool)
    requires
        from <= to <= chars@.len(),
    ensures
        r == mantissa_text(chars@.subrange(from as int, to as int)),
{
    let ghost body = chars@.subrange(from as int, to as int);
    let mut i: usize = from;
    while i < to && '0' <= chars[i] && chars[i] <= '9'
        invariant
            from <= i <= to <= chars@.len(),
            body == chars@.subrange(from as int, to as int),
            forall|j: int| 0 <= j < i - from ==> digit(#[trigger] body[j]),
        decreases to - i,
    {
        assert(body[i - from] == chars@[i as int]);
        i += 1;
    }
    if i == to {
        assert(forall|d: int| !dotted_at(body, d));
        return to > from;
    }
    assert(body[i - from] == chars@[i as int]);
    proof {
        assert(!all_digits(body));
        assert forall|d: int| dotted_at(body, d) implies d == i - from by {
            if d > i - from {
                assert(body.take(d)[i - from] == body[i - from]);
            }
        }
    }
    if chars[i] != '.' || to - from < 2 {
        return false;
    }
    proof {
        assert(body.take(i - from) =~= chars@.subrange(from as int, i as int));
        assert(body.skip(i - from + 1) =~= chars@.subrange(i + 1, to as int));
        assert(only_digits(body.take(i - from)));
    }
    let r = digits_between(chars, i + 1, to);
    assert(r == dotted_at(body, i - from));
    r
}

/// Whether std reads `s` as a double.
pub fn is_float_text(s: &str) -> (r: bool)
    ensures
        r == float_text(s@),
{
    let chars = to_chars(s);
    let n: usize = chars.len();
    let mut from: usize = 0;
    if n > 0 && (chars[0] == '+' || chars[0] == '-') {
        from = 1;
    }
    let ghost body = unsigned_part(s@);
    assert(body =~= chars@.subrange(from as int, n as int));
    let word = to_lower(s.substring_char(from, n));
    if same(word.as_str(), "inf") || same(word.as_str(), "infinity") || same(word.as_str(), "nan") {
        return true;
    }
    if mantissa_between(&chars, from, n) {
        return true;
    }
    let mut k: usize = from;
    while k < n && chars[k] != 'e' && chars[k] != 'E'
        invariant
            from <= k <= n,
            n == chars@.len(),
            body == chars@.subrange(from as int, n as int),
            forall|j: int| 0 <= j < k - from ==> body[j] != 'e' && body[j] != 'E',
        decreases n - k,
    {
        assert(body[k - from] == chars@[k as int]);
        k += 1;
    }
    if k == n {
        assert(forall|j: int| !exponent_at(body, j));
        return false;
    }
    assert(body[k - from] == chars@[k as int]);
    proof {
        assert forall|j: int| exponent_at(body, j) implies j == k - from by {
            if j > k - from {
                let m = body.take(j);
                assert(m[k - from] == body[k - from]);
                if exists|d: int| dotted_at(m, d) {
                    let d = choose|d: int| dotted_at(m, d);
                    if k - from < d {
                        assert(m.take(d)[k - from] == m[k - from]);
                    } else if k - from > d {
                        assert(m.skip(d + 1)[k - from - d - 1] == m[k - from]);
                    }
                }
            }
        }
        assert(body.take(k - from) =~= chars@.subrange(from as int, k as int));
    }
    let mut tail: usize = k + 1;
    if tail < n && (chars[tail] == '+' || chars[tail] == '-') {
        tail += 1;
    }
    proof {
        let rest = body.skip(k - from + 1);
        if k + 1 < n {
            assert(rest[0] == chars@[k + 1]);
        }
        assert(unsigned_part(rest) =~= chars@.subrange(tail as int, n as int));
    }
    let r = mantissa_between(&chars, from, k) && tail < n && digits_between(&chars, tail, n);
    assert(r == exponent_at(body, k - from));
    r
}

/// What `str::to_lowercase` makes of a text.
pub uninterp spec fn unicode_lowercase(s: Seq<char>) -> Seq<char>;

/// `str::to_lowercase`: the lower case of the text by Unicode's tables, a
/// function of the text alone.
#[verifier::external_body]
pub(crate) fn to_unicode_lower(s: &str) -> (r: String)
    ensures
        r@ == unicode_lowercase(s@),
{
    s.to_lowercase()
}

/// What `{:?}` writes for a text: the text in quotes, with escapes.
pub uninterp spec fn quoted(s: Seq<char>) -> Seq<char>;

/// The `Debug` form of a `str`, a function of the text alone.
#[verifier::external_body]
pub(crate) fn quote(s: &str) -> (r: String)
    ensures
        r@ == quoted(s@),
{
    format!("{s:?}")
}

/// The number of bytes of the UTF-8 form of `s`.
pub open spec fn byte_len(s: Seq<char>) -> nat {
    vstd::utf8::encode_utf8(s).len()
}

/// The number of bytes of `s`.
pub fn len_in_bytes(s: &str) -> (r: usize)
    ensures
        r == byte_len(s@),
{
    s.as_bytes().len()
}

/// `String::from_utf8`: the text that the bytes encode, where they are UTF-8, and
/// nothing where they are not.
#[verifier::external_body]
pub(crate) fn text_from_utf8(bytes: Vec<u8>) -> (r: Option<String>)
    ensures
        match r {
            Some(s) => vstd::utf8::valid_utf8(bytes@) && s@ == vstd::utf8::decode_utf8(bytes@),
            None => !vstd::utf8::valid_utf8(bytes@),
        },
{
    String::from_utf8(bytes).ok()
}

/// The span from the first `open` to the last `close`, both found.
pub open spec fn is_span(s: Seq<char>, open: char, close: char, from: int, to: int) -> bool {
    first_at(s, open, from) && last_at(s, close, to)
}

/// The places of the first `open` and of the last `close`, where both occur. The
/// second may come before the first.
pub fn find_span(s: &str, open: char, close: char) -> (r: Option<(usize, usize)>)
    ensures
        match r {
            Some((from, to)) => is_span(s@, open, close, from as int, to as int) && to < usize::MAX,
            None => !s@.contains(open) || !s@.contains(close),
        },
{
    match find_char(s, open) {
        Some(from) => match rfind_char(s, close) {
            Some(to) => Some((from, to)),
            None => None,
        },
        None => None,
    }
}

/// `s` without the characters `c` at its end.
pub open spec fn without_trailing(s: Seq<char>, c: char) -> Seq<char>
    decreases s.len(),
{
    if s.len() > 0 && s.last() == c {
        without_trailing(s.drop_last(), c)
    } else {
        s
    }
}

/// `s` without the characters `c` at its end.
pub fn strip_trailing(s: &str, c: char) -> (r: String)
    ensures
        r@ == without_trailing(s@, c),
        r@.len() > 0 ==> r@.last() != c,
{
    let chars = to_chars(s);
    let mut to: usize = chars.len();
    assert(s@.take(to as int) =~= s@);
    while to > 0 && chars[to - 1] == c
        invariant
            to <= chars@.len(),
            chars@ == s@,
            without_trailing(s@, c) == without_trailing(s@.take(to as int), c),
        decreases to,
    {
        assert(s@.take(to as int).drop_last() =~= s@.take(to - 1));
        to -= 1;
    }
    assert(s@.take(to as int) =~= chars@.subrange(0, to as int));
    from_chars(&chars, 0, to)
}

/// Trimming takes the white space off both ends and nothing else: between them it
/// keeps all that begins and ends with ink.
pub proof fn trimming_takes_the_ends_off(before: Seq<char>, s: Seq<char>, after: Seq<char>)
    requires
        blank(before),
        blank(after),
        s.len() > 0,
        !white_space(s[0]),
        !white_space(s.last()),
    ensures
        trimmed(before + s + after) == s,
        trimmed(s) == s,
{
    lemma_trimmed_between(before, s, after);
    let none = Seq::<char>::empty();
    lemma_trimmed_between(none, s, none);
    assert(none + s + none =~= s);
}

proof fn lemma_trimmed_between(before: Seq<char>, s: Seq<char>, after: Seq<char>)
    requires
        blank(before),
        blank(after),
        s.len() > 0,
        !white_space(s[0]),
        !white_space(s.last()),
    ensures
        trimmed(before + s + after) == s,
{
    let whole = before + s + after;
    let n = before.len() as int;
    assert forall|i: int| 0 <= i < n implies white_space(#[trigger] whole[i]) by {
        assert(whole[i] == before[i]);
    }
    assert(whole[n] == s[0]);
    lemma_trim_start_skips(whole, n);
    let rest = whole.skip(n);
    assert(rest =~= s + after);
    let k = s.len() as int;
    assert forall|i: int| k <= i < rest.len() implies white_space(#[trigger] rest[i]) by {
        assert(rest[i] == after[i - k]);
    }
    assert(rest[k - 1] == s.last());
    lemma_trim_end_drops(rest, k);
    assert(rest.take(k) =~= s);
}

/// The digits of a number have no white space to trim.
pub proof fn numerals_are_trimmed(n: nat)
    ensures
        trimmed(decimal(n)) == decimal(n),
{
    decimal_reads_back(n, n);
    let s = decimal(n);
    assert(digit(s[0]));
    assert(digit(s[s.len() - 1]));
    let none = Seq::<char>::empty();
    trimming_takes_the_ends_off(none, s, none);
}

/// Lower case changes the letters from `A` to `Z` alone, each to its small one,
/// and no place.
pub proof fn lower_case_keeps_places(s: Seq<char>, i: int)
    requires
        0 <= i < s.len(),
    ensures
        lowered(s).len() == s.len(),
        'A' <= s[i] <= 'Z' ==> lowered(s)[i] as u32 == s[i] as u32 + 32,
        !('A' <= s[i] <= 'Z') ==> lowered(s)[i] == s[i],
{
}

/// The pieces of a text, joined by what they were split on, are the text again,
/// and no piece holds it.
pub proof fn joining_undoes_splitting(s: Seq<char>, c: char)
    ensures
        split_on(s, c).len() > 0,
        joined(split_on(s, c), seq![c]) == s,
        forall|i: int| 0 <= i < split_on(s, c).len() ==> !(#[trigger] split_on(s, c)[i]).contains(c),
    decreases s.len(),
{
    let pieces = split_on(s, c);
    if s.len() == 0 {
        assert(pieces[0] =~= s);
    } else {
        let x = s.last();
        let before = split_on(s.drop_last(), c);
        joining_undoes_splitting(s.drop_last(), c);
        assert(s.drop_last().push(x) =~= s);
        if x == c {
            assert(pieces.drop_last() =~= before);
            assert(joined(before, seq![c]) + seq![c] + Seq::<char>::empty() =~= s);
            assert forall|i: int| 0 <= i < pieces.len() implies !(#[trigger] pieces[i]).contains(
                c,
            ) by {
                if i < before.len() {
                    assert(pieces[i] == before[i]);
                }
            }
        } else {
            let longer = before.last().push(x);
            assert(pieces.drop_last() =~= before.drop_last());
            assert(pieces.last() == longer);
            if before.len() > 1 {
                assert(joined(before.drop_last(), seq![c]) + seq![c] + longer =~= s);
            } else {
                assert(pieces[0] == longer);
                assert(before[0] == before.last());
            }
            assert forall|i: int| 0 <= i < pieces.len() implies !(#[trigger] pieces[i]).contains(
                c,
            ) by {
                if i < before.len() - 1 {
                    assert(pieces[i] == before[i]);
                } else {
                    assert(!before[before.len() - 1].contains(c));
                    if longer.contains(c) {
                        let k = choose|k: int| 0 <= k < longer.len() && longer[k] == c;
                        assert(before.last()[k] == c);
                    }
                }
            }
        }
    }
}

/// Only digits write a number, with one plus sign before them at most, and one
/// above the largest is none.
pub proof fn only_digits_write_numbers(s: Seq<char>, max: nat, i: int)
    ensures
        all_digits(s) ==> unsigned_value(s, max) == if digits_value(s) <= max {
            Some(digits_value(s))
        } else {
            None
        },
        all_digits(s) ==> unsigned_value(seq!['+'] + s, max) == unsigned_value(s, max),
        s.len() == 0 ==> unsigned_value(s, max) is None,
        0 < i < s.len() && !digit(s[i]) ==> unsigned_value(s, max) is None,
        s.len() > 0 && !digit(s[0]) && s[0] != '+' ==> unsigned_value(s, max) is None,
{
    let signed = seq!['+'] + s;
    assert(signed.skip(1) =~= s);
    if all_digits(s) {
        assert(digit(s[0]));
    }
    if 0 < i < s.len() && !digit(s[i]) {
        assert(s.skip(1)[i - 1] == s[i]);
    }
}

/// What is taken off an end is that character and nothing else, as often as it
/// stands there.
pub proof fn only_the_trailing_goes(s: Seq<char>, c: char)
    ensures
        without_trailing(s, c).is_prefix_of(s),
        forall|i: int| without_trailing(s, c).len() <= i < s.len() ==> #[trigger] s[i] == c,
        without_trailing(s, c).len() > 0 ==> without_trailing(s, c).last() != c,
    decreases s.len(),
{
    if s.len() > 0 && s.last() == c {
        let fewer = s.drop_last();
        only_the_trailing_goes(fewer, c);
        let kept = without_trailing(fewer, c);
        assert forall|i: int| kept.len() <= i < s.len() implies #[trigger] s[i] == c by {
            if i < fewer.len() {
                assert(fewer[i] == s[i]);
            }
        }
    }
}

} // verus!
