//! Strings as the manifest sees them: byte-wise order, equality, and the few
//! operations on text that the rest of the crate is built from.

use vstd::prelude::*;
use vstd::utf8::{decode_utf8, encode_utf8, encode_utf8_decode_utf8};

verus! {

/// How one string stands to another in byte-wise order.
#[derive(Debug, Clone, Copy, PartialEq, Eq, Structural)]
pub enum Order {
    Less,
    Equal,
    Greater,
}

/// `a` and `b` hold the same bytes in their first `k` places.
pub open spec fn agree_until(a: Seq<u8>, b: Seq<u8>, k: int) -> bool {
    &&& 0 <= k <= a.len()
    &&& k <= b.len()
    &&& forall|j: int| 0 <= j < k ==> a[j] == b[j]
}

/// `a` comes before `b`, and place `k` shows it: up to there the two agree,
/// and there `a` ends or holds the smaller byte.
pub open spec fn precedes_at(a: Seq<u8>, b: Seq<u8>, k: int) -> bool {
    &&& agree_until(a, b, k)
    &&& k < b.len()
    &&& (k == a.len() || a[k] < b[k])
}

/// Byte-wise (ordinal) order: `a` comes strictly before `b`.
pub open spec fn bytes_lt(a: Seq<u8>, b: Seq<u8>) -> bool {
    exists|k: int| precedes_at(a, b, k)
}

/// How `a` stands to `b` in byte-wise order.
pub open spec fn bytes_order(a: Seq<u8>, b: Seq<u8>) -> Order {
    if bytes_lt(a, b) {
        Order::Less
    } else if a == b {
        Order::Equal
    } else {
        Order::Greater
    }
}

/// Byte-wise order of two strings, taken over their UTF-8 encodings.
pub open spec fn text_lt(a: Seq<char>, b: Seq<char>) -> bool {
    bytes_lt(encode_utf8(a), encode_utf8(b))
}

/// How the string `a` stands to the string `b` in byte-wise order.
pub open spec fn text_order(a: Seq<char>, b: Seq<char>) -> Order {
    bytes_order(encode_utf8(a), encode_utf8(b))
}

/// No byte string comes before itself.
pub proof fn lemma_bytes_lt_irreflexive(a: Seq<u8>)
    ensures
        !bytes_lt(a, a),
{
}

/// Of two byte strings at most one comes before the other.
pub proof fn lemma_bytes_lt_asymmetric(a: Seq<u8>, b: Seq<u8>)
    requires
        bytes_lt(a, b),
    ensures
        !bytes_lt(b, a),
{
    let k = choose|k: int| precedes_at(a, b, k);
    if bytes_lt(b, a) {
        let m = choose|m: int| precedes_at(b, a, m);
        if k < m {
            assert(b[k] == a[k]);
        } else if m < k {
            assert(a[m] == b[m]);
        }
    }
}

/// Byte-wise order is transitive.
pub proof fn lemma_bytes_lt_transitive(a: Seq<u8>, b: Seq<u8>, c: Seq<u8>)
    requires
        bytes_lt(a, b),
        bytes_lt(b, c),
    ensures
        bytes_lt(a, c),
{
    let k = choose|k: int| precedes_at(a, b, k);
    let m = choose|m: int| precedes_at(b, c, m);
    let n = if k <= m { k } else { m };
    assert forall|j: int| 0 <= j < n implies a[j] == c[j] by {
        assert(a[j] == b[j]);
        assert(b[j] == c[j]);
    }
    if k < m {
        assert(b[k] == c[k]);
    } else if m < k {
        assert(a[m] == b[m]);
    }
    assert(precedes_at(a, c, n));
}

/// Two byte strings that agree on their first `k` places are equal, or one
/// comes before the other.
proof fn lemma_bytes_decided_from(a: Seq<u8>, b: Seq<u8>, k: int)
    requires
        agree_until(a, b, k),
    ensures
        bytes_lt(a, b) || a == b || bytes_lt(b, a),
    decreases a.len() - k,
{
    if k == a.len() && k == b.len() {
        assert(a =~= b);
    } else if k == a.len() {
        assert(precedes_at(a, b, k));
    } else if k == b.len() {
        assert(precedes_at(b, a, k));
    } else if a[k] < b[k] {
        assert(precedes_at(a, b, k));
    } else if b[k] < a[k] {
        assert(precedes_at(b, a, k));
    } else {
        lemma_bytes_decided_from(a, b, k + 1);
    }
}

/// Byte-wise order is total.
pub proof fn lemma_bytes_lt_total(a: Seq<u8>, b: Seq<u8>)
    ensures
        bytes_lt(a, b) || a == b || bytes_lt(b, a),
{
    lemma_bytes_decided_from(a, b, 0);
}

/// Strings with the same UTF-8 bytes are the same string.
pub proof fn lemma_encoding_injective(a: Seq<char>, b: Seq<char>)
    requires
        encode_utf8(a) == encode_utf8(b),
    ensures
        a == b,
{
    encode_utf8_decode_utf8(a);
    encode_utf8_decode_utf8(b);
    assert(decode_utf8(encode_utf8(a)) == decode_utf8(encode_utf8(b)));
}

/// The order of two strings is `Equal` exactly when they are the same string.
pub proof fn lemma_text_order_equal(a: Seq<char>, b: Seq<char>)
    ensures
        text_order(a, b) == Order::Equal <==> a == b,
{
    lemma_bytes_lt_irreflexive(encode_utf8(a));
    if text_order(a, b) == Order::Equal {
        lemma_encoding_injective(a, b);
    }
}

/// Of two strings exactly one holds: the first comes before the second, they
/// are the same, or the second comes before the first.
pub proof fn lemma_text_lt_trichotomy(a: Seq<char>, b: Seq<char>)
    ensures
        text_lt(a, b) || a == b || text_lt(b, a),
        !(text_lt(a, b) && a == b),
        !(text_lt(b, a) && a == b),
        !(text_lt(a, b) && text_lt(b, a)),
{
    let x = encode_utf8(a);
    let y = encode_utf8(b);
    lemma_bytes_lt_total(x, y);
    lemma_bytes_lt_irreflexive(x);
    if x == y {
        lemma_encoding_injective(a, b);
    }
    if text_lt(a, b) {
        lemma_bytes_lt_asymmetric(x, y);
    }
}

/// Byte-wise order of strings is transitive.
pub proof fn lemma_text_lt_transitive(a: Seq<char>, b: Seq<char>, c: Seq<char>)
    requires
        text_lt(a, b),
        text_lt(b, c),
    ensures
        text_lt(a, c),
{
    lemma_bytes_lt_transitive(encode_utf8(a), encode_utf8(b), encode_utf8(c));
}

/// Compares two byte strings place by place.
pub fn compare_bytes(a: &[u8], b: &[u8]) -> (order: Order)
    ensures
        order == bytes_order(a@, b@),
        order == Order::Greater <==> bytes_lt(b@, a@),
{
    let mut i: usize = 0;
    while i < a.len() && i < b.len()
        invariant
            agree_until(a@, b@, i as int),
        decreases a.len() - i,
    {
        if a[i] < b[i] {
            proof {
                assert(precedes_at(a@, b@, i as int));
                lemma_bytes_lt_asymmetric(a@, b@);
            }
            return Order::Less;
        }
        if a[i] > b[i] {
            proof {
                assert(precedes_at(b@, a@, i as int));
                lemma_bytes_lt_asymmetric(b@, a@);
                lemma_bytes_lt_irreflexive(a@);
            }
            return Order::Greater;
        }
        i += 1;
    }
    if a.len() < b.len() {
        proof {
            assert(precedes_at(a@, b@, i as int));
            lemma_bytes_lt_asymmetric(a@, b@);
        }
        Order::Less
    } else if a.len() > b.len() {
        proof {
            assert(precedes_at(b@, a@, i as int));
            lemma_bytes_lt_asymmetric(b@, a@);
            lemma_bytes_lt_irreflexive(a@);
        }
        Order::Greater
    } else {
        proof {
            assert(a@ =~= b@);
            lemma_bytes_lt_irreflexive(a@);
        }
        Order::Equal
    }
}

/// Compares two strings byte-wise.
pub fn compare_text(a: &str, b: &str) -> (order: Order)
    ensures
        order == text_order(a@, b@),
        order == Order::Greater <==> text_lt(b@, a@),
        order == Order::Equal <==> a@ == b@,
{
    proof {
        lemma_text_order_equal(a@, b@);
    }
    compare_bytes(a.as_bytes(), b.as_bytes())
}

/// Whether two strings are the same.
pub fn same_text(a: &str, b: &str) -> (same: bool)
    ensures
        same == (a@ == b@),
{
    match compare_text(a, b) {
        Order::Equal => true,
        _ => false,
    }
}

/// An ASCII capital letter as its small letter; any other byte as itself.
pub open spec fn fold_ascii(byte: u8) -> u8 {
    if 65 <= byte <= 90 {
        (byte + 32) as u8
    } else {
        byte
    }
}

/// Two byte strings are the same once ASCII letters are taken without case.
pub open spec fn bytes_match_ignoring_ascii_case(a: Seq<u8>, b: Seq<u8>) -> bool {
    &&& a.len() == b.len()
    &&& forall|i: int| 0 <= i < a.len() ==> fold_ascii(#[trigger] a[i]) == fold_ascii(b[i])
}

/// Two strings are the same once ASCII letters are taken without case.
pub open spec fn matches_ignoring_ascii_case(a: Seq<char>, b: Seq<char>) -> bool {
    bytes_match_ignoring_ascii_case(encode_utf8(a), encode_utf8(b))
}

/// Strings that differ at most in the case of their ASCII letters match the
/// same strings.
pub proof fn lemma_ascii_case_match_carries(a: Seq<char>, b: Seq<char>, c: Seq<char>)
    requires
        matches_ignoring_ascii_case(a, b),
    ensures
        matches_ignoring_ascii_case(a, c) == matches_ignoring_ascii_case(b, c),
{
    let x = encode_utf8(a);
    let y = encode_utf8(b);
    let z = encode_utf8(c);
    if bytes_match_ignoring_ascii_case(x, z) {
        assert forall|i: int| 0 <= i < y.len() implies fold_ascii(#[trigger] y[i]) == fold_ascii(
            z[i],
        ) by {
            assert(fold_ascii(x[i]) == fold_ascii(y[i]));
            assert(fold_ascii(x[i]) == fold_ascii(z[i]));
        }
    }
    if bytes_match_ignoring_ascii_case(y, z) {
        assert forall|i: int| 0 <= i < x.len() implies fold_ascii(#[trigger] x[i]) == fold_ascii(
            z[i],
        ) by {
            assert(fold_ascii(x[i]) == fold_ascii(y[i]));
            assert(fold_ascii(y[i]) == fold_ascii(z[i]));
        }
    }
}

fn fold_byte(byte: u8) -> (out: u8)
    ensures
        out == fold_ascii(byte),
{
    if 65 <= byte && byte <= 90 {
        byte + 32
    } else {
        byte
    }
}

fn bytes_eq_ignore_ascii_case(x: &[u8], y: &[u8]) -> (same: bool)
    ensures
        same == bytes_match_ignoring_ascii_case(x@, y@),
{
    if x.len() != y.len() {
        return false;
    }
    let mut i: usize = 0;
    while i < x.len()
        invariant
            i <= x.len(),
            x.len() == y.len(),
            forall|j: int| 0 <= j < i ==> fold_ascii(#[trigger] x@[j]) == fold_ascii(y@[j]),
        decreases x.len() - i,
    {
        if fold_byte(x[i]) != fold_byte(y[i]) {
            return false;
        }
        i += 1;
    }
    true
}

/// Whether two strings differ at most in the case of their ASCII letters.
pub fn eq_ignore_ascii_case(a: &str, b: &str) -> (same: bool)
    ensures
        same == matches_ignoring_ascii_case(a@, b@),
{
    bytes_eq_ignore_ascii_case(a.as_bytes(), b.as_bytes())
}

/// `needle` stands in `haystack` from place `at` on.
pub open spec fn occurs_at(haystack: Seq<u8>, needle: Seq<u8>, at: int) -> bool {
    &&& 0 <= at
    &&& at + needle.len() <= haystack.len()
    &&& forall|j: int| 0 <= j < needle.len() ==> #[trigger] haystack[at + j] == needle[j]
}

/// `needle` stands somewhere in `haystack`, byte for byte.
pub open spec fn bytes_contain(haystack: Seq<u8>, needle: Seq<u8>) -> bool {
    exists|at: int| occurs_at(haystack, needle, at)
}

/// `needle` is a substring of `haystack`.
pub open spec fn text_contains(haystack: Seq<char>, needle: Seq<char>) -> bool {
    bytes_contain(encode_utf8(haystack), encode_utf8(needle))
}

fn stands_at(haystack: &[u8], needle: &[u8], at: usize) -> (found: bool)
    requires
        at + needle.len() <= haystack.len(),
    ensures
        found == occurs_at(haystack@, needle@, at as int),
{
    let mut j: usize = 0;
    while j < needle.len()
        invariant
            j <= needle.len(),
            at + needle.len() <= haystack.len(),
            forall|k: int| 0 <= k < j ==> #[trigger] haystack@[at + k] == needle@[k],
        decreases needle.len() - j,
    {
        if haystack[at + j] != needle[j] {
            return false;
        }
        j += 1;
    }
    true
}

fn bytes_contains(h: &[u8], n: &[u8]) -> (found: bool)
    ensures
        found == bytes_contain(h@, n@),
{
    if n.len() > h.len() {
        return false;
    }
    let last: usize = h.len() - n.len();
    let mut at: usize = 0;
    while at <= last
        invariant
            at <= last + 1,
            last == h.len() - n.len(),
            n.len() <= h.len(),
            forall|k: int| 0 <= k < at ==> !occurs_at(h@, n@, k),
        decreases last + 1 - at,
    {
        if stands_at(h, n, at) {
            return true;
        }
        at += 1;
    }
    false
}

/// Whether `needle` is a substring of `haystack`.
pub fn contains(haystack: &str, needle: &str) -> (found: bool)
    ensures
        found == text_contains(haystack@, needle@),
{
    bytes_contains(haystack.as_bytes(), needle.as_bytes())
}

/// Adds one character to the end of a string, as `String::push` of std does.
#[verifier::external_body]
pub(crate) fn push_char(text: &mut String, c: char)
    ensures
        final(text)@ == old(text)@.push(c),
{
    text.push(c)
}

/// `first` followed by `second`.
pub fn joined(first: &str, second: &str) -> (out: String)
    ensures
        out@ == first@ + second@,
{
    let mut out = String::from_str(first);
    out.append(second);
    out
}

/// Takes the last character off a string, as `String::pop` of std does:
/// nothing comes back from an empty string, which stays empty.
#[verifier::external_body]
pub(crate) fn pop_char(text: &mut String) -> (last: Option<char>)
    ensures
        old(text)@.len() == 0 ==> last is None && final(text)@ == old(text)@,
        old(text)@.len() > 0 ==> last == Some(old(text)@.last()) && final(text)@ == old(
            text,
        )@.drop_last(),
{
    text.pop()
}

/// The character of a decimal digit.
pub open spec fn digit_char(digit: nat) -> char {
    ((48 + digit) as u8) as char
}

/// A number written in decimal, without sign or leading zeros.
pub open spec fn decimal(n: nat) -> Seq<char>
    decreases n,
{
    if n < 10 {
        seq![digit_char(n)]
    } else {
        decimal(n / 10).push(digit_char(n % 10))
    }
}

fn push_decimal(out: &mut String, n: u64)
    ensures
        final(out)@ == old(out)@ + decimal(n as nat),
    decreases n,
{
    if n >= 10 {
        push_decimal(out, n / 10);
    }
    let digit: u8 = (n % 10) as u8;
    push_char(out, (48 + digit) as char);
    proof {
        if n >= 10 {
            assert(out@ =~= old(out)@ + decimal((n / 10) as nat).push(digit_char((n % 10) as nat)));
        } else {
            assert(out@ =~= old(out)@ + seq![digit_char(n as nat)]);
        }
    }
}

/// A number written in decimal.
pub fn to_decimal(n: u64) -> (out: String)
    ensures
        out@ == decimal(n as nat),
{
    let mut out = String::new();
    push_decimal(&mut out, n);
    proof {
        assert(Seq::<char>::empty() + decimal(n as nat) =~= decimal(n as nat));
    }
    out
}

/// A line as it stood before a line feed: without the carriage return that
/// closes it, where there is one.
pub open spec fn without_carriage_return(line: Seq<char>) -> Seq<char> {
    if line.len() > 0 && line.last() == '\r' {
        line.drop_last()
    } else {
        line
    }
}

/// A text read up to some point: the lines closed so far, and what was read
/// of the line that is still open.
pub struct Lines {
    pub closed: Seq<Seq<char>>,
    pub open: Seq<char>,
}

impl Lines {
    /// The reading once `c` was read: a line feed closes the open line, any
    /// other character joins it.
    pub open spec fn read(self, c: char) -> Lines {
        if c == '\n' {
            Lines {
                closed: self.closed.push(without_carriage_return(self.open)),
                open: Seq::empty(),
            }
        } else {
            Lines { closed: self.closed, open: self.open.push(c) }
        }
    }

    /// The reading of a whole text.
    pub open spec fn of(text: Seq<char>) -> Lines
        decreases text.len(),
    {
        if text.len() == 0 {
            Lines { closed: Seq::empty(), open: Seq::empty() }
        } else {
            Lines::of(text.drop_last()).read(text.last())
        }
    }

    /// All lines read: the closed ones, and the open one unless it is empty.
    pub open spec fn all(self) -> Seq<Seq<char>> {
        if self.open.len() > 0 {
            self.closed.push(self.open)
        } else {
            self.closed
        }
    }
}

/// The lines of a text. A line ends with a line feed, or with a carriage
/// return and a line feed; neither belongs to the line. What follows the last
/// line feed is a line too unless it is empty.
pub open spec fn lines_of(text: Seq<char>) -> Seq<Seq<char>> {
    Lines::of(text).all()
}

/// The texts of a list of strings, in order.
pub open spec fn texts(strings: Seq<String>) -> Seq<Seq<char>> {
    strings.map_values(|text: String| text@)
}

/// Splits a text into its lines.
pub fn split_lines(text: &str) -> (lines: Vec<String>)
    ensures
        texts(lines@) == lines_of(text@),
{
    let mut lines: Vec<String> = Vec::new();
    let mut current = String::new();
    proof {
        assert(text@.take(0) =~= Seq::<char>::empty());
        assert(texts(lines@) =~= Seq::<Seq<char>>::empty());
    }
    for c in it: text.chars()
        invariant
            it.seq() == text@,
            Lines::of(text@.take(it.index() as int)) == (Lines {
                closed: texts(lines@),
                open: current@,
            }),
    {
        let ghost before = texts(lines@);
        let ghost open = current@;
        if c == '\n' {
            match pop_char(&mut current) {
                Some(last) => {
                    if last != '\r' {
                        push_char(&mut current, last);
                        proof {
                            assert(current@ =~= open);
                        }
                    }
                },
                None => {},
            }
            lines.push(current);
            current = String::new();
            proof {
                assert(texts(lines@) =~= before.push(without_carriage_return(open)));
            }
        } else {
            push_char(&mut current, c);
        }
        proof {
            let k = it.index() as int;
            assert(text@.take(k + 1).drop_last() == text@.take(k));
            assert(text@.take(k + 1).last() == c);
        }
    }
    proof {
        assert(text@.take(text@.len() as int) == text@);
    }
    if !current.as_str().is_empty() {
        let ghost before = texts(lines@);
        lines.push(current);
        proof {
            assert(texts(lines@) =~= before.push(current@));
        }
    }
    lines
}

} // verus!
