//! Text primitives over `char` sequences: Unicode whitespace, ASCII case
//! folding, trimming, splitting and number parsing and printing. Each exec
//! function's contract states its result over a spec function on
//! `Seq<char>`, so callers reason over sequences.

use vstd::prelude::*;

verus! {

/// Unicode `White_Space`, as `char::is_whitespace` tests it.
pub open spec fn is_ws(c: char) -> bool {
    let u = c as u32;
    ||| (0x9 <= u && u <= 0xd)
    ||| u == 0x20
    ||| u == 0x85
    ||| u == 0xa0
    ||| u == 0x1680
    ||| (0x2000 <= u && u <= 0x200a)
    ||| u == 0x2028
    ||| u == 0x2029
    ||| u == 0x202f
    ||| u == 0x205f
    ||| u == 0x3000
}

pub fn is_whitespace(c: char) -> (r: bool)
    ensures
        r == is_ws(c),
{
    let u = c as u32;
    (0x9 <= u && u <= 0xd) || u == 0x20 || u == 0x85 || u == 0xa0 || u == 0x1680 || (0x2000 <= u
        && u <= 0x200a) || u == 0x2028 || u == 0x2029 || u == 0x202f || u == 0x205f || u == 0x3000
}

/// Unicode general category `Cc`, as `char::is_control` tests it.
pub open spec fn is_ctrl(c: char) -> bool {
    let u = c as u32;
    u <= 0x1f || (0x7f <= u && u <= 0x9f)
}

pub fn is_control(c: char) -> (r: bool)
    ensures
        r == is_ctrl(c),
{
    let u = c as u32;
    u <= 0x1f || (0x7f <= u && u <= 0x9f)
}

/// ASCII lowercase of one char; everything outside `A`..=`Z` is kept.
pub open spec fn lower_c(c: char) -> char {
    if 'A' <= c && c <= 'Z' {
        ((c as u32) + 32) as char
    } else {
        c
    }
}

pub open spec fn lower(s: Seq<char>) -> Seq<char> {
    s.map_values(|c: char| lower_c(c))
}

pub fn lower_char(c: char) -> (r: char)
    ensures
        r == lower_c(c),
{
    if 'A' <= c && c <= 'Z' {
        let b: u8 = c as u8;
        (b + 32) as char
    } else {
        c
    }
}

/// `str::to_ascii_lowercase` over chars.
pub fn to_lower(s: &[char]) -> (r: Vec<char>)
    ensures
        r@ == lower(s@),
{
    let mut out: Vec<char> = Vec::new();
    for i in 0..s.len()
        invariant
            out@ == lower(s@.take(i as int)),
    {
        out.push(lower_char(s[i]));
        assert(lower(s@.take(i + 1)) =~= lower(s@.take(i as int)).push(lower_c(s@[i as int])));
    }
    assert(s@.take(s@.len() as int) =~= s@);
    out
}

/// `str::eq_ignore_ascii_case`.
pub open spec fn eq_ic(a: Seq<char>, b: Seq<char>) -> bool {
    lower(a) =~= lower(b)
}

pub fn eq_ignore_case(a: &[char], b: &[char]) -> (r: bool)
    ensures
        r == eq_ic(a@, b@),
{
    if a.len() != b.len() {
        assert(lower(a@).len() != lower(b@).len());
        return false;
    }
    for i in 0..a.len()
        invariant
            a@.len() == b@.len(),
            forall|j: int| 0 <= j < i ==> lower_c(#[trigger] a@[j]) == lower_c(b@[j]),
    {
        if lower_char(a[i]) != lower_char(b[i]) {
            assert(lower(a@)[i as int] != lower(b@)[i as int]);
            return false;
        }
    }
    assert(lower(a@) =~= lower(b@));
    true
}

pub fn seq_eq(a: &[char], b: &[char]) -> (r: bool)
    ensures
        r == (a@ =~= b@),
{
    if a.len() != b.len() {
        return false;
    }
    for i in 0..a.len()
        invariant
            a@.len() == b@.len(),
            forall|j: int| 0 <= j < i ==> #[trigger] a@[j] == b@[j],
    {
        if a[i] != b[i] {
            return false;
        }
    }
    true
}

/// First index at or after `i` whose char does not satisfy `p`.
pub open spec fn skip_while(s: Seq<char>, i: int, p: spec_fn(char) -> bool) -> int
    decreases s.len() - i,
{
    if i < s.len() && p(s[i]) {
        skip_while(s, i + 1, p)
    } else {
        i
    }
}

/// Last end `<= j` (but `>= lo`) whose preceding char does not satisfy `p`.
pub open spec fn skip_back_while(s: Seq<char>, lo: int, j: int, p: spec_fn(char) -> bool) -> int
    decreases j - lo,
{
    if j > lo && p(s[j - 1]) {
        skip_back_while(s, lo, j - 1, p)
    } else {
        j
    }
}

/// `str::trim_matches(p)`.
pub open spec fn trim_by(s: Seq<char>, p: spec_fn(char) -> bool) -> Seq<char> {
    let a = skip_while(s, 0, p);
    s.subrange(a, skip_back_while(s, a, s.len() as int, p))
}

pub open spec fn ws_pred() -> spec_fn(char) -> bool {
    |c: char| is_ws(c)
}

/// `str::trim`.
pub open spec fn trim(s: Seq<char>) -> Seq<char> {
    trim_by(s, ws_pred())
}

pub proof fn lemma_skip_while(s: Seq<char>, i: int, p: spec_fn(char) -> bool)
    requires
        0 <= i <= s.len(),
    ensures
        i <= skip_while(s, i, p) <= s.len(),
        forall|k: int| i <= k < skip_while(s, i, p) ==> p(#[trigger] s[k]),
        skip_while(s, i, p) < s.len() ==> !p(s[skip_while(s, i, p)]),
    decreases s.len() - i,
{
    if i < s.len() && p(s[i]) {
        lemma_skip_while(s, i + 1, p);
    }
}

pub proof fn lemma_skip_back_while(s: Seq<char>, lo: int, j: int, p: spec_fn(char) -> bool)
    requires
        0 <= lo <= j <= s.len(),
    ensures
        lo <= skip_back_while(s, lo, j, p) <= j,
        forall|k: int| skip_back_while(s, lo, j, p) <= k < j ==> p(#[trigger] s[k]),
        skip_back_while(s, lo, j, p) > lo ==> !p(s[skip_back_while(s, lo, j, p) - 1]),
    decreases j - lo,
{
    if j > lo && p(s[j - 1]) {
        lemma_skip_back_while(s, lo, j - 1, p);
    }
}

/// The bounds `(a, b)` such that `s[a..b]` is `s` with whitespace trimmed
/// from both ends.
pub fn trim_bounds(s: &[char]) -> (r: (usize, usize))
    ensures
        r.0 == skip_while(s@, 0, ws_pred()),
        r.1 == skip_back_while(s@, r.0 as int, s@.len() as int, ws_pred()),
        r.0 <= r.1 <= s@.len(),
        s@.subrange(r.0 as int, r.1 as int) == trim(s@),
{
    let mut a: usize = 0;
    while a < s.len() && is_whitespace(s[a])
        invariant
            a <= s@.len(),
            skip_while(s@, a as int, ws_pred()) == skip_while(s@, 0, ws_pred()),
        decreases s@.len() - a,
    {
        a = a + 1;
    }
    let mut b: usize = s.len();
    while b > a && is_whitespace(s[b - 1])
        invariant
            a <= b <= s@.len(),
            skip_back_while(s@, a as int, b as int, ws_pred()) == skip_back_while(
                s@,
                a as int,
                s@.len() as int,
                ws_pred(),
            ),
        decreases b - a,
    {
        b = b - 1;
    }
    (a, b)
}

/// `str::trim`, as a new vector.
pub fn trim_chars(s: &[char]) -> (r: Vec<char>)
    ensures
        r@ == trim(s@),
{
    let (a, b) = trim_bounds(s);
    slice_to_vec(s, a, b)
}

/// `s[a..b]` copied out.
pub fn slice_to_vec(s: &[char], a: usize, b: usize) -> (r: Vec<char>)
    requires
        a <= b <= s@.len(),
    ensures
        r@ == s@.subrange(a as int, b as int),
{
    let mut out: Vec<char> = Vec::new();
    let mut i = a;
    while i < b
        invariant
            a <= i <= b <= s@.len(),
            out@ == s@.subrange(a as int, i as int),
        decreases b - i,
    {
        out.push(s[i]);
        assert(s@.subrange(a as int, i + 1) =~= s@.subrange(a as int, i as int).push(s@[i as int]));
        i = i + 1;
    }
    out
}

pub open spec fn ne_pred(c: char) -> spec_fn(char) -> bool {
    |x: char| x != c
}

/// Index of the first `c` in `s`, or `s.len()` when there is none.
pub open spec fn find(s: Seq<char>, c: char) -> int {
    skip_while(s, 0, ne_pred(c))
}

/// Index of the last `c` in `s`, or `-1` when there is none.
pub open spec fn rfind(s: Seq<char>, c: char) -> int {
    skip_back_while(s, 0, s.len() as int, ne_pred(c)) - 1
}

pub fn find_char(s: &[char], c: char) -> (r: usize)
    ensures
        r == find(s@, c),
        r <= s@.len(),
        forall|k: int| 0 <= k < r ==> s@[k] != c,
        r < s@.len() ==> s@[r as int] == c,
{
    proof {
        lemma_skip_while(s@, 0, ne_pred(c));
    }
    let mut i: usize = 0;
    while i < s.len() && s[i] != c
        invariant
            i <= s@.len(),
            skip_while(s@, i as int, ne_pred(c)) == find(s@, c),
        decreases s@.len() - i,
    {
        i = i + 1;
    }
    i
}

/// `Some(index)` of the last `c`, for `str::rfind`/`rsplit_once`.
pub fn rfind_char(s: &[char], c: char) -> (r: Option<usize>)
    ensures
        match r {
            Some(i) => i == rfind(s@, c) && i < s@.len() && s@[i as int] == c,
            None => rfind(s@, c) == -1,
        },
        forall|k: int| rfind(s@, c) < k < s@.len() ==> s@[k] != c,
{
    proof {
        lemma_skip_back_while(s@, 0, s@.len() as int, ne_pred(c));
    }
    let mut j: usize = s.len();
    while j > 0 && s[j - 1] != c
        invariant
            j <= s@.len(),
            skip_back_while(s@, 0, j as int, ne_pred(c)) == skip_back_while(
                s@,
                0,
                s@.len() as int,
                ne_pred(c),
            ),
        decreases j,
    {
        j = j - 1;
    }
    if j == 0 {
        None
    } else {
        Some(j - 1)
    }
}

/// The UTF-8 bytes of one char.
fn encode_char(c: char) -> (b: Vec<u8>)
    ensures
        b@ == vstd::utf8::encode_scalar(c as u32),
{
    proof {
        vstd::utf8::char_is_scalar(c);
    }
    let u = c as u32;
    let mut b: Vec<u8> = Vec::new();
    if u <= 0x7F {
        b.push((u & 0x7F) as u8);
    } else if u <= 0x7FF {
        b.push(0xC0 | ((u >> 6) & 0x1F) as u8);
        b.push(0x80 | (u & 0x3F) as u8);
    } else if u <= 0xFFFF {
        b.push(0xE0 | ((u >> 12) & 0x0F) as u8);
        b.push(0x80 | ((u >> 6) & 0x3F) as u8);
        b.push(0x80 | (u & 0x3F) as u8);
    } else {
        b.push(0xF0 | ((u >> 18) & 0x7) as u8);
        b.push(0x80 | ((u >> 12) & 0x3F) as u8);
        b.push(0x80 | ((u >> 6) & 0x3F) as u8);
        b.push(0x80 | (u & 0x3F) as u8);
    }
    b
}

proof fn lemma_encode_push(s: Seq<char>, c: char)
    ensures
        vstd::utf8::encode_utf8(s.push(c)) == vstd::utf8::encode_utf8(s) + vstd::utf8::encode_scalar(
            c as u32,
        ),
    decreases s.len(),
{
    if s.len() == 0 {
        assert(s.push(c).drop_first() =~= Seq::<char>::empty());
        assert(s.push(c)[0] == c);
        assert(vstd::utf8::encode_utf8(Seq::<char>::empty()) =~= Seq::<u8>::empty());
        assert(vstd::utf8::encode_utf8(s) =~= Seq::<u8>::empty());
        assert(vstd::utf8::encode_utf8(s.push(c)) =~= vstd::utf8::encode_scalar(c as u32));
    } else {
        assert(s.push(c).drop_first() =~= s.drop_first().push(c));
        lemma_encode_push(s.drop_first(), c);
        assert(vstd::utf8::encode_utf8(s.push(c)) =~= vstd::utf8::encode_utf8(s) + vstd::utf8::encode_scalar(
            c as u32,
        ));
    }
}

/// The string holding exactly `chars`: their UTF-8 encoding, taken as a
/// `String`.
pub fn string_of(chars: &[char]) -> (s: String)
    ensures
        s@ == chars@,
{
    let mut bytes: Vec<u8> = Vec::new();
    for i in 0..chars.len()
        invariant
            bytes@ == vstd::utf8::encode_utf8(chars@.take(i as int)),
    {
        let b = encode_char(chars[i]);
        proof {
            lemma_encode_push(chars@.take(i as int), chars@[i as int]);
            assert(chars@.take(i + 1) =~= chars@.take(i as int).push(chars@[i as int]));
        }
        let ghost before = bytes@;
        for j in 0..b.len()
            invariant
                bytes@ == before + b@.take(j as int),
        {
            bytes.push(b[j]);
            assert(bytes@ =~= before + b@.take(j + 1));
        }
        assert(b@.take(b@.len() as int) =~= b@);
    }
    assert(chars@.take(chars@.len() as int) =~= chars@);
    proof {
        vstd::utf8::encode_utf8_valid_utf8(chars@);
        vstd::utf8::encode_utf8_decode_utf8(chars@);
    }
    match utf8_string(bytes) {
        Some(s) => s,
        None => String::new(),
    }
}

/// `String::from_utf8`: the text the bytes encode, or `None` when they are
/// not valid UTF-8.
#[verifier::external_body]
pub(crate) fn utf8_string(bytes: Vec<u8>) -> (r: Option<String>)
    ensures
        r is Some <==> vstd::utf8::valid_utf8(bytes@),
        r matches Some(s) ==> s@ == vstd::utf8::decode_utf8(bytes@),
{
    String::from_utf8(bytes).ok()
}

pub fn str_chars(s: &str) -> (v: Vec<char>)
    ensures
        v@ == s@,
{
    let mut v: Vec<char> = Vec::new();
    for c in it: s.chars()
        invariant
            v@ == it.seq().take(it.index() as int),
    {
        v.push(c);
    }
    v
}


/// End of the maximal run of non-whitespace starting at `i`.
pub open spec fn tok_end(s: Seq<char>, i: int) -> int {
    skip_while(s, i, nws_pred())
}

pub open spec fn nws_pred() -> spec_fn(char) -> bool {
    |c: char| !is_ws(c)
}

/// `str::split_whitespace`, the pieces from index `i` on.
pub open spec fn tokens_from(s: Seq<char>, i: int) -> Seq<Seq<char>>
    decreases s.len() - i,
{
    if 0 <= i <= s.len() {
        let a = skip_while(s, i, ws_pred());
        if a >= s.len() {
            seq![]
        } else {
            let b = tok_end(s, a);
            proof {
                lemma_skip_while(s, i, ws_pred());
                lemma_skip_while(s, a, nws_pred());
            }
            seq![s.subrange(a, b)] + tokens_from(s, b)
        }
    } else {
        seq![]
    }
}

pub open spec fn tokens(s: Seq<char>) -> Seq<Seq<char>> {
    tokens_from(s, 0)
}

/// The next whitespace-separated token at or after `i`: its bounds, or
/// `None` when only whitespace is left.
pub fn next_token(s: &[char], i: usize) -> (r: Option<(usize, usize)>)
    requires
        i <= s@.len(),
    ensures
        match r {
            None => tokens_from(s@, i as int) == Seq::<Seq<char>>::empty(),
            Some((a, b)) => {
                &&& i <= a < b <= s@.len()
                &&& tokens_from(s@, i as int) == seq![s@.subrange(a as int, b as int)]
                    + tokens_from(s@, b as int)
            },
        },
{
    proof {
        lemma_skip_while(s@, i as int, ws_pred());
    }
    let mut a = i;
    while a < s.len() && is_whitespace(s[a])
        invariant
            i <= a <= s@.len(),
            skip_while(s@, a as int, ws_pred()) == skip_while(s@, i as int, ws_pred()),
        decreases s@.len() - a,
    {
        a = a + 1;
    }
    if a >= s.len() {
        return None;
    }
    proof {
        lemma_skip_while(s@, a as int, nws_pred());
    }
    let mut b = a;
    while b < s.len() && !is_whitespace(s[b])
        invariant
            a <= b <= s@.len(),
            skip_while(s@, b as int, nws_pred()) == skip_while(s@, a as int, nws_pred()),
        decreases s@.len() - b,
    {
        b = b + 1;
    }
    Some((a, b))
}

/// Value of one digit in `radix` (10 or 16), as `char::to_digit`.
pub open spec fn digit_val(c: char, radix: u32) -> Option<nat> {
    let u = c as u32;
    if '0' <= c && c <= '9' && (u - 48) < radix {
        Some((u - 48) as nat)
    } else if radix == 16 && 'a' <= c && c <= 'f' {
        Some((u - 87) as nat)
    } else if radix == 16 && 'A' <= c && c <= 'F' {
        Some((u - 55) as nat)
    } else {
        None
    }
}

pub fn digit_value(c: char, radix: u32) -> (r: Option<u32>)
    requires
        radix == 10 || radix == 16,
    ensures
        match r {
            Some(d) => digit_val(c, radix) == Some(d as nat) && d < radix,
            None => digit_val(c, radix) is None,
        },
{
    let u = c as u32;
    if '0' <= c && c <= '9' && (u - 48) < radix {
        Some(u - 48)
    } else if radix == 16 && 'a' <= c && c <= 'f' {
        Some(u - 87)
    } else if radix == 16 && 'A' <= c && c <= 'F' {
        Some(u - 55)
    } else {
        None
    }
}

/// Every char of `s` is a digit in `radix`.
pub open spec fn all_digits(s: Seq<char>, radix: u32) -> bool {
    forall|i: int| 0 <= i < s.len() ==> (#[trigger] digit_val(s[i], radix)) is Some
}

/// The number the digits of `s` spell in `radix`.
pub open spec fn digits_value(s: Seq<char>, radix: u32) -> nat
    decreases s.len(),
{
    if s.len() == 0 {
        0
    } else {
        digits_value(s.drop_last(), radix) * (radix as nat) + match digit_val(s.last(), radix) {
            Some(d) => d,
            None => 0,
        }
    }
}

/// `u64::from_str_radix`: an optional `+`, then at least one digit, the
/// value fitting in 64 bits.
pub open spec fn parse_uint(s: Seq<char>, radix: u32, max: nat) -> Option<nat> {
    let digits = if s.len() > 0 && s[0] == '+' {
        s.drop_first()
    } else {
        s
    };
    if digits.len() > 0 && all_digits(digits, radix) && digits_value(digits, radix) <= max {
        Some(digits_value(digits, radix))
    } else {
        None
    }
}

proof fn lemma_digits_value_mono(s: Seq<char>, radix: u32, i: int)
    requires
        0 <= i <= s.len(),
        radix >= 1,
    ensures
        digits_value(s.take(i), radix) <= digits_value(s, radix),
    decreases s.len() - i,
{
    if i < s.len() {
        lemma_digits_value_mono(s, radix, i + 1);
        assert(s.take(i + 1).drop_last() =~= s.take(i));
        let v = digits_value(s.take(i), radix);
        assert(v * (radix as nat) >= v) by (nonlinear_arith)
            requires
                radix >= 1,
        ;
    } else {
        assert(s.take(i) =~= s);
    }
}

/// `u64::from_str_radix(s, radix)`, reporting `None` for every error.
pub fn parse_u64(s: &[char], radix: u32) -> (r: Option<u64>)
    requires
        radix == 10 || radix == 16,
    ensures
        match r {
            Some(v) => parse_uint(s@, radix, u64::MAX as nat) == Some(v as nat),
            None => parse_uint(s@, radix, u64::MAX as nat) is None,
        },
{
    let start: usize = if s.len() > 0 && s[0] == '+' {
        1
    } else {
        0
    };
    let ghost digits = if s@.len() > 0 && s@[0] == '+' {
        s@.drop_first()
    } else {
        s@
    };
    assert(digits =~= s@.subrange(start as int, s@.len() as int));
    if start >= s.len() {
        return None;
    }
    let mut value: u64 = 0;
    let mut i = start;
    while i < s.len()
        invariant
            start <= i <= s@.len(),
            digits =~= s@.subrange(start as int, s@.len() as int),
            digits == (if s@.len() > 0 && s@[0] == '+' {
                s@.drop_first()
            } else {
                s@
            }),
            radix == 10 || radix == 16,
            all_digits(digits.take(i - start), radix),
            value as nat == digits_value(digits.take(i - start), radix),
        decreases s@.len() - i,
    {
        let d = match digit_value(s[i], radix) {
            Some(d) => d,
            None => {
                assert(digits[i - start] == s@[i as int]);
                assert(digit_val(digits[i - start], radix) is None);
                assert(!all_digits(digits, radix));
                return None;
            },
        };
        let ghost k = i - start;
        assert(digits.take(k + 1).drop_last() =~= digits.take(k));
        assert(digits.take(k + 1).last() == s@[i as int]);
        let next = match value.checked_mul(radix as u64) {
            Some(m) => m.checked_add(d as u64),
            None => None,
        };
        match next {
            Some(n) => {
                value = n;
            },
            None => {
                proof {
                    lemma_digits_value_mono(digits, radix, k + 1);
                    assert(digit_val(digits.take(k + 1).last(), radix) == Some(d as nat));
                    assert(digits_value(digits.take(k + 1), radix) == (value as nat) * (radix as nat)
                        + d);
                    assert(digits_value(digits.take(k + 1), radix) > u64::MAX);
                    assert(digits_value(digits, radix) > u64::MAX);
                }
                return None;
            },
        }
        i = i + 1;
        assert(all_digits(digits.take(i - start), radix)) by {
            assert forall|j: int| 0 <= j < digits.take(i - start).len() implies (#[trigger] digit_val(
                digits.take(i - start)[j],
                radix,
            )) is Some by {
                if j < k {
                    assert(digits.take(i - start)[j] == digits.take(k)[j]);
                }
            }
        }
    }
    assert(digits.take(i - start) =~= digits);
    Some(value)
}

/// The ASCII digit for `d` (below ten).
pub open spec fn digit_char(d: nat) -> char {
    if d == 0 {
        '0'
    } else if d == 1 {
        '1'
    } else if d == 2 {
        '2'
    } else if d == 3 {
        '3'
    } else if d == 4 {
        '4'
    } else if d == 5 {
        '5'
    } else if d == 6 {
        '6'
    } else if d == 7 {
        '7'
    } else if d == 8 {
        '8'
    } else {
        '9'
    }
}

fn digit(d: u64) -> (c: char)
    requires
        d < 10,
    ensures
        c == digit_char(d as nat),
{
    if d == 0 {
        '0'
    } else if d == 1 {
        '1'
    } else if d == 2 {
        '2'
    } else if d == 3 {
        '3'
    } else if d == 4 {
        '4'
    } else if d == 5 {
        '5'
    } else if d == 6 {
        '6'
    } else if d == 7 {
        '7'
    } else if d == 8 {
        '8'
    } else {
        '9'
    }
}

/// Decimal digits of `n`, most significant first.
pub open spec fn dec(n: nat) -> Seq<char>
    decreases n,
{
    if n < 10 {
        seq![digit_char(n)]
    } else {
        dec(n / 10) + seq![digit_char(n % 10)]
    }
}

pub proof fn lemma_dec_len(n: nat)
    ensures
        dec(n).len() >= 1,
        dec(n).len() == 1 <==> n < 10,
    decreases n,
{
    if n >= 10 {
        lemma_dec_len(n / 10);
    }
}

/// Different numbers print differently.
pub proof fn lemma_dec_injective(a: nat, b: nat)
    requires
        dec(a) == dec(b),
    ensures
        a == b,
    decreases a,
{
    lemma_dec_len(a);
    lemma_dec_len(b);
    if a < 10 {
        assert(dec(a)[0] == digit_char(a));
        assert(dec(b)[0] == digit_char(b));
    } else {
        let pa = dec(a / 10);
        let pb = dec(b / 10);
        assert(dec(a).drop_last() =~= pa);
        assert(dec(b).drop_last() =~= pb);
        assert(dec(a).last() == digit_char(a % 10));
        assert(dec(b).last() == digit_char(b % 10));
        lemma_dec_injective(a / 10, b / 10);
    }
}

/// `n.to_string()` for an unsigned integer.
pub fn decimal(n: u64) -> (r: Vec<char>)
    ensures
        r@ == dec(n as nat),
    decreases n,
{
    if n < 10 {
        let mut v: Vec<char> = Vec::new();
        v.push(digit(n));
        proof {
            assert(v@ =~= dec(n as nat));
        }
        v
    } else {
        let mut v = decimal(n / 10);
        v.push(digit(n % 10));
        proof {
            assert(v@ =~= dec(n as nat));
        }
        v
    }
}

/// Concatenation of chars views.
pub fn concat(a: &[char], b: &[char]) -> (r: Vec<char>)
    ensures
        r@ == a@ + b@,
{
    let mut out: Vec<char> = Vec::new();
    for i in 0..a.len()
        invariant
            out@ == a@.take(i as int),
    {
        out.push(a[i]);
        assert(a@.take(i + 1) =~= a@.take(i as int).push(a@[i as int]));
    }
    for i in 0..b.len()
        invariant
            out@ == a@ + b@.take(i as int),
    {
        out.push(b[i]);
        assert(a@ + b@.take(i + 1) =~= (a@ + b@.take(i as int)).push(b@[i as int]));
    }
    assert(a@.take(a@.len() as int) =~= a@);
    assert(b@.take(b@.len() as int) =~= b@);
    out
}


/// Index of the first `c` at or after `i`, or `s.len()`.
pub fn find_char_from(s: &[char], c: char, i: usize) -> (r: usize)
    requires
        i <= s@.len(),
    ensures
        r == skip_while(s@, i as int, ne_pred(c)),
        i <= r <= s@.len(),
        forall|k: int| i <= k < r ==> s@[k] != c,
        r < s@.len() ==> s@[r as int] == c,
{
    proof {
        lemma_skip_while(s@, i as int, ne_pred(c));
    }
    let mut j: usize = i;
    while j < s.len() && s[j] != c
        invariant
            i <= j <= s@.len(),
            skip_while(s@, j as int, ne_pred(c)) == skip_while(s@, i as int, ne_pred(c)),
        decreases s@.len() - j,
    {
        j = j + 1;
    }
    j
}

/// `str::split(c)`, the pieces from index `i` on.
pub open spec fn split_from(s: Seq<char>, c: char, i: int) -> Seq<Seq<char>>
    decreases s.len() - i,
{
    if 0 <= i <= s.len() {
        let k = skip_while(s, i, ne_pred(c));
        proof {
            lemma_skip_while(s, i, ne_pred(c));
        }
        if k >= s.len() {
            seq![s.subrange(i, s.len() as int)]
        } else {
            seq![s.subrange(i, k)] + split_from(s, c, k + 1)
        }
    } else {
        seq![]
    }
}

pub open spec fn split_on(s: Seq<char>, c: char) -> Seq<Seq<char>> {
    split_from(s, c, 0)
}

/// The char views of a sequence of vectors.
pub open spec fn views(v: Seq<Vec<char>>) -> Seq<Seq<char>> {
    v.map_values(|x: Vec<char>| x@)
}

/// `str::split(c)`, collected.
pub fn split_chars(s: &[char], c: char) -> (r: Vec<Vec<char>>)
    ensures
        views(r@) == split_on(s@, c),
{
    let mut out: Vec<Vec<char>> = Vec::new();
    let mut i: usize = 0;
    assert(views(out@) + split_from(s@, c, 0) =~= split_from(s@, c, 0));
    loop
        invariant
            i <= s@.len(),
            views(out@) + split_from(s@, c, i as int) == split_on(s@, c),
        decreases s@.len() - i,
    {
        let k = find_char_from(s, c, i);
        let piece = slice_to_vec(s, i, k);
        out.push(piece);
        if k >= s.len() {
            assert(views(out@) =~= split_on(s@, c));
            return out;
        }
        proof {
            assert(views(out@) + split_from(s@, c, k + 1) =~= views(out@).drop_last() + (seq![
                s@.subrange(i as int, k as int),
            ] + split_from(s@, c, k + 1)));
        }
        i = k + 1;
    }
}

/// `a + b + c` as a `String`.
pub fn join3(a: &str, b: &[char], c: &str) -> (r: String)
    ensures
        r@ == a@ + b@ + c@,
{
    let av = str_chars(a);
    let cv = str_chars(c);
    let ab = concat(&av, b);
    let abc = concat(&ab, &cv);
    string_of(&abc)
}

/// `a + b` as a `String`.
pub fn join2(a: &str, b: &str) -> (r: String)
    ensures
        r@ == a@ + b@,
{
    let av = str_chars(a);
    let bv = str_chars(b);
    let ab = concat(&av, &bv);
    string_of(&ab)
}

pub open spec fn pair_view(p: (String, String)) -> (Seq<char>, Seq<char>) {
    (p.0@, p.1@)
}

/// The char views of a list of string pairs.
pub open spec fn pairs_view(v: Seq<(String, String)>) -> Seq<(Seq<char>, Seq<char>)> {
    v.map_values(|p: (String, String)| pair_view(p))
}

/// The order `<` gives strings: lexicographic by code point (UTF-8 byte
/// order follows code point order).
pub open spec fn lex_lt(a: Seq<char>, b: Seq<char>) -> bool
    decreases a.len(),
{
    if a.len() == 0 {
        b.len() > 0
    } else if b.len() == 0 {
        false
    } else if a[0] != b[0] {
        (a[0] as int) < (b[0] as int)
    } else {
        lex_lt(a.drop_first(), b.drop_first())
    }
}

pub proof fn lemma_lex_irreflexive(a: Seq<char>)
    ensures
        !lex_lt(a, a),
    decreases a.len(),
{
    if a.len() > 0 {
        lemma_lex_irreflexive(a.drop_first());
    }
}

pub proof fn lemma_lex_transitive(a: Seq<char>, b: Seq<char>, c: Seq<char>)
    requires
        lex_lt(a, b),
        lex_lt(b, c),
    ensures
        lex_lt(a, c),
    decreases a.len(),
{
    if a.len() > 0 && b.len() > 0 && c.len() > 0 && a[0] == b[0] && b[0] == c[0] {
        lemma_lex_transitive(a.drop_first(), b.drop_first(), c.drop_first());
    }
}

pub proof fn lemma_lex_total(a: Seq<char>, b: Seq<char>)
    requires
        a != b,
    ensures
        lex_lt(a, b) || lex_lt(b, a),
    decreases a.len(),
{
    if a.len() > 0 && b.len() > 0 && a[0] == b[0] {
        assert(a.drop_first() != b.drop_first()) by {
            if a.drop_first() == b.drop_first() {
                assert(a =~= seq![a[0]] + a.drop_first());
                assert(b =~= seq![b[0]] + b.drop_first());
            }
        }
        lemma_lex_total(a.drop_first(), b.drop_first());
    } else if a.len() == 0 && b.len() == 0 {
        assert(a =~= b);
    } else if a.len() > 0 && b.len() > 0 {
        assert((a[0] as int) != (b[0] as int));
    }
}

/// `a < b` for strings given by their chars.
pub fn lex_less(a: &[char], b: &[char]) -> (r: bool)
    ensures
        r == lex_lt(a@, b@),
{
    let mut i: usize = 0;
    assert(a@.skip(0) =~= a@);
    assert(b@.skip(0) =~= b@);
    while i < a.len() && i < b.len() && a[i] == b[i]
        invariant
            i <= a@.len(),
            i <= b@.len(),
            lex_lt(a@.skip(i as int), b@.skip(i as int)) == lex_lt(a@, b@),
        decreases a@.len() - i,
    {
        proof {
            assert(a@.skip(i as int).drop_first() =~= a@.skip(i + 1));
            assert(b@.skip(i as int).drop_first() =~= b@.skip(i + 1));
        }
        i = i + 1;
    }
    if i == a.len() {
        i < b.len()
    } else if i == b.len() {
        false
    } else {
        assert(a@.skip(i as int)[0] == a@[i as int]);
        assert(b@.skip(i as int)[0] == b@[i as int]);
        a[i] < b[i]
    }
}

/// Append `s` to `v`.
pub fn push_str(v: &mut Vec<char>, s: &str)
    ensures
        final(v)@ == old(v)@ + s@,
{
    let cs = str_chars(s);
    push_chars(v, &cs);
}

/// Append `s` to `v`.
pub fn push_chars(v: &mut Vec<char>, s: &[char])
    ensures
        final(v)@ == old(v)@ + s@,
{
    let ghost start = v@;
    for i in 0..s.len()
        invariant
            v@ == start + s@.take(i as int),
    {
        v.push(s[i]);
        assert(start + s@.take(i + 1) =~= (start + s@.take(i as int)).push(s@[i as int]));
    }
    assert(s@.take(s@.len() as int) =~= s@);
}

/// Two decimal digits, zero-padded: `5` is `05`.
pub open spec fn pad2(n: nat) -> Seq<char> {
    if n < 10 {
        seq!['0'] + dec(n)
    } else {
        dec(n)
    }
}

/// Append `n` in decimal, zero-padded to two digits.
pub fn push_pad2(v: &mut Vec<char>, n: u64)
    ensures
        final(v)@ == old(v)@ + pad2(n as nat),
{
    if n < 10 {
        v.push('0');
        let ghost mid = v@;
        push_chars(v, &decimal(n));
        assert(v@ =~= old(v)@ + pad2(n as nat));
    } else {
        push_chars(v, &decimal(n));
    }
}

} // verus!
