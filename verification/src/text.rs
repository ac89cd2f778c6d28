//! Strings as sequences of characters: decimal numbers, searching, splitting
//! and the lexicographic order.

use vstd::prelude::*;

verus! {

/// The texts of a list of strings, in order.
pub open spec fn texts(list: Seq<String>) -> Seq<Seq<char>> {
    Seq::new(list.len(), |i: int| list[i]@)
}

pub open spec fn is_digit(c: char) -> bool {
    '0' <= c && c <= '9'
}

pub open spec fn digit_value(c: char) -> nat {
    (c as u32 - '0' as u32) as nat
}

pub open spec fn digit_char(d: nat) -> char {
    if d == 0 {
        '0'
    } else if d == 1 {
        '1'
    } else if d == 2 {
        '2'
    } else if d == 3 {
        '3'
    } else if d == 4 {
        '4'
    } else if d == 5 {
        '5'
    } else if d == 6 {
        '6'
    } else if d == 7 {
        '7'
    } else if d == 8 {
        '8'
    } else {
        '9'
    }
}

pub open spec fn all_digits(s: Seq<char>) -> bool {
    forall|i: int| 0 <= i < s.len() ==> is_digit(#[trigger] s[i])
}

/// The number that a run of decimal digits writes, most significant digit
/// first; 0 for the empty run.
pub open spec fn decimal_value(s: Seq<char>) -> nat
    decreases s.len(),
{
    if s.len() == 0 {
        0
    } else {
        decimal_value(s.drop_last()) * 10 + digit_value(s.last())
    }
}

/// What is left of a number's text once one leading `+` is taken away.
pub open spec fn unsigned_body(s: Seq<char>) -> Seq<char> {
    if s.len() > 0 && s[0] == '+' {
        s.drop_first()
    } else {
        s
    }
}

/// The unsigned number that `s` writes, if it writes one that is at most
/// `max`: an optional `+`, then one or more decimal digits and nothing else.
pub open spec fn number_of(s: Seq<char>, max: nat) -> Option<nat> {
    let body = unsigned_body(s);
    if body.len() > 0 && all_digits(body) && decimal_value(body) <= max {
        Some(decimal_value(body))
    } else {
        None
    }
}

/// The shortest decimal text of `n`.
pub open spec fn decimal_digits(n: nat) -> Seq<char>
    decreases n,
{
    if n < 10 {
        seq![digit_char(n)]
    } else {
        decimal_digits(n / 10).push(digit_char(n % 10))
    }
}

/// The index of the last `c` in `s`, or -1 where `s` holds none.
pub open spec fn last_index(s: Seq<char>, c: char) -> int
    decreases s.len(),
{
    if s.len() == 0 {
        -1
    } else if s.last() == c {
        s.len() - 1
    } else {
        last_index(s.drop_last(), c)
    }
}

/// The index of the first `c` in `s`, or the length of `s` where it holds
/// none.
pub open spec fn first_index(s: Seq<char>, c: char) -> int
    decreases s.len(),
{
    if s.len() == 0 {
        0
    } else if s[0] == c {
        0
    } else {
        1 + first_index(s.drop_first(), c)
    }
}

/// The fields of `s` between occurrences of `sep`. A text without `sep` is
/// one field; the empty text is one empty field.
pub open spec fn split(s: Seq<char>, sep: char) -> Seq<Seq<char>>
    decreases s.len(),
{
    let i = first_index(s, sep);
    if 0 <= i < s.len() {
        seq![s.take(i)] + split(s.skip(i + 1), sep)
    } else {
        seq![s]
    }
}

/// Lexicographic order by character, looking only at positions from `i` on.
pub open spec fn lex_le_from(a: Seq<char>, b: Seq<char>, i: int) -> bool
    decreases a.len() - i,
{
    if i < 0 || i >= a.len() {
        true
    } else if i >= b.len() {
        false
    } else if a[i] != b[i] {
        a[i] < b[i]
    } else {
        lex_le_from(a, b, i + 1)
    }
}

/// `a` comes before `b`, or equals it, in the lexicographic order by
/// character: at the first position where they differ `a` holds the smaller
/// character, or `a` ends there.
pub open spec fn lex_le(a: Seq<char>, b: Seq<char>) -> bool {
    lex_le_from(a, b, 0)
}

/// The lexicographic order, as a relation.
pub open spec fn text_order() -> spec_fn(Seq<char>, Seq<char>) -> bool {
    |a: Seq<char>, b: Seq<char>| lex_le(a, b)
}

/// `list` in lexicographic order, least first.
pub open spec fn sorted_texts(list: Seq<Seq<char>>) -> Seq<Seq<char>> {
    list.sort_by(text_order())
}

pub proof fn lemma_digit_char(d: nat)
    requires
        d < 10,
    ensures
        is_digit(digit_char(d)),
        digit_value(digit_char(d)) == d,
{
}

pub proof fn lemma_decimal_value_push(s: Seq<char>, c: char)
    ensures
        decimal_value(s.push(c)) == decimal_value(s) * 10 + digit_value(c),
{
    assert(s.push(c).drop_last() =~= s);
}

/// A prefix of a run of digits writes no larger a number than the run.
pub proof fn lemma_decimal_value_prefix(s: Seq<char>, k: int)
    requires
        0 <= k <= s.len(),
    ensures
        decimal_value(s.take(k)) <= decimal_value(s),
    decreases s.len() - k,
{
    if k == s.len() {
        assert(s.take(k) =~= s);
    } else {
        lemma_decimal_value_prefix(s.drop_last(), k);
        assert(s.drop_last().take(k) =~= s.take(k));
    }
}

/// The decimal text of `n` is a non-empty run of digits that writes `n`.
pub proof fn lemma_decimal_digits(n: nat)
    ensures
        decimal_digits(n).len() >= 1,
        all_digits(decimal_digits(n)),
        decimal_value(decimal_digits(n)) == n,
    decreases n,
{
    if n < 10 {
        lemma_digit_char(n);
        let s = seq![digit_char(n)];
        assert(s.drop_last() =~= Seq::<char>::empty());
        assert(decimal_value(s.drop_last()) == 0);
    } else {
        lemma_decimal_digits(n / 10);
        lemma_digit_char(n % 10);
        lemma_decimal_value_push(decimal_digits(n / 10), digit_char(n % 10));
    }
}

/// Reading the decimal text of a number gives the number back.
pub proof fn lemma_number_of_decimal_digits(n: nat, max: nat)
    ensures
        number_of(decimal_digits(n), max) == (if n <= max {
            Some(n)
        } else {
            None
        }),
{
    lemma_decimal_digits(n);
    assert(is_digit(decimal_digits(n)[0]));
}

pub proof fn lemma_last_index(s: Seq<char>, c: char)
    ensures
        -1 <= last_index(s, c) < s.len(),
        last_index(s, c) >= 0 ==> s[last_index(s, c)] == c,
        forall|j: int| last_index(s, c) < j < s.len() ==> s[j] != c,
    decreases s.len(),
{
    if s.len() > 0 && s.last() != c {
        let t = s.drop_last();
        lemma_last_index(t, c);
        assert forall|j: int| last_index(s, c) < j < s.len() implies s[j] != c by {
            if j < t.len() {
                assert(t[j] == s[j]);
            }
        }
    }
}

/// The last index is the one position that holds `c` with no `c` after it.
pub proof fn lemma_last_index_at(s: Seq<char>, c: char, k: int)
    requires
        -1 <= k < s.len(),
        k >= 0 ==> s[k] == c,
        forall|j: int| k < j < s.len() ==> s[j] != c,
    ensures
        last_index(s, c) == k,
    decreases s.len(),
{
    if s.len() > 0 && s.last() != c {
        lemma_last_index_at(s.drop_last(), c, k);
    }
}

pub proof fn lemma_first_index(s: Seq<char>, c: char)
    ensures
        0 <= first_index(s, c) <= s.len(),
        first_index(s, c) < s.len() ==> s[first_index(s, c)] == c,
        forall|j: int| 0 <= j < first_index(s, c) ==> s[j] != c,
    decreases s.len(),
{
    if s.len() > 0 && s[0] != c {
        let t = s.drop_first();
        lemma_first_index(t, c);
        assert forall|j: int| 0 <= j < first_index(s, c) implies s[j] != c by {
            if j > 0 {
                assert(s[j] == t[j - 1]);
            }
        }
    }
}

/// The first index is the one position that holds `c` with no `c` before it.
pub proof fn lemma_first_index_at(s: Seq<char>, c: char, k: int)
    requires
        0 <= k <= s.len(),
        k < s.len() ==> s[k] == c,
        forall|j: int| 0 <= j < k ==> s[j] != c,
    ensures
        first_index(s, c) == k,
    decreases s.len(),
{
    if s.len() > 0 && s[0] != c {
        let t = s.drop_first();
        assert forall|j: int| 0 <= j < k - 1 implies t[j] != c by {
            assert(t[j] == s[j + 1]);
        }
        lemma_first_index_at(t, c, k - 1);
    }
}

/// A text has at least one field.
pub proof fn lemma_split_len(s: Seq<char>, sep: char)
    ensures
        split(s, sep).len() >= 1,
    decreases s.len(),
{
    lemma_first_index(s, sep);
    let i = first_index(s, sep);
    if 0 <= i < s.len() {
        lemma_split_len(s.skip(i + 1), sep);
    }
}

pub proof fn lemma_lex_le_reflexive(a: Seq<char>, i: int)
    ensures
        lex_le_from(a, a, i),
    decreases a.len() - i,
{
    if 0 <= i < a.len() {
        lemma_lex_le_reflexive(a, i + 1);
    }
}

pub proof fn lemma_lex_le_antisymmetric(a: Seq<char>, b: Seq<char>, i: int)
    requires
        0 <= i <= a.len(),
        i <= b.len(),
        forall|j: int| 0 <= j < i ==> a[j] == b[j],
        lex_le_from(a, b, i),
        lex_le_from(b, a, i),
    ensures
        a == b,
    decreases a.len() - i,
{
    if i < a.len() {
        lemma_lex_le_antisymmetric(a, b, i + 1);
    } else {
        assert(a =~= b);
    }
}

pub proof fn lemma_lex_le_transitive(a: Seq<char>, b: Seq<char>, c: Seq<char>, i: int)
    requires
        lex_le_from(a, b, i),
        lex_le_from(b, c, i),
    ensures
        lex_le_from(a, c, i),
    decreases a.len() - i,
{
    if 0 <= i < a.len() {
        if a[i] == b[i] && b[i] == c[i] {
            lemma_lex_le_transitive(a, b, c, i + 1);
        }
    }
}

pub proof fn lemma_lex_le_connected(a: Seq<char>, b: Seq<char>, i: int)
    requires
        0 <= i,
    ensures
        lex_le_from(a, b, i) || lex_le_from(b, a, i),
    decreases a.len() - i,
{
    if i < a.len() && i < b.len() && a[i] == b[i] {
        lemma_lex_le_connected(a, b, i + 1);
    }
}

/// The lexicographic order is a total order on texts.
pub proof fn lemma_lex_le_total_order()
    ensures
        vstd::relations::total_ordering(text_order()),
{
    let r = text_order();
    assert forall|a: Seq<char>| #[trigger] r(a, a) by {
        lemma_lex_le_reflexive(a, 0);
    }
    assert forall|a: Seq<char>, b: Seq<char>| #[trigger] r(a, b) && #[trigger] r(b, a) implies a
        == b by {
        lemma_lex_le_antisymmetric(a, b, 0);
    }
    assert forall|a: Seq<char>, b: Seq<char>, c: Seq<char>| #[trigger]
        r(a, b) && #[trigger] r(b, c) implies r(a, c) by {
        lemma_lex_le_transitive(a, b, c, 0);
    }
    assert forall|a: Seq<char>, b: Seq<char>| #[trigger] r(a, b) || #[trigger] r(b, a) by {
        lemma_lex_le_connected(a, b, 0);
    }
}

/// What makes `sorted_texts` the sorted list: it is in order, and it holds
/// what `list` holds, each text as often.
pub proof fn lemma_sorted_texts(list: Seq<Seq<char>>)
    ensures
        vstd::relations::sorted_by(sorted_texts(list), text_order()),
        sorted_texts(list).to_multiset() == list.to_multiset(),
        sorted_texts(list).len() == list.len(),
{
    lemma_lex_le_total_order();
    list.lemma_sort_by_ensures(text_order());
    list.to_multiset_ensures();
    sorted_texts(list).to_multiset_ensures();
}

/// Putting `x` into `s` at position `p` adds one `x` to what `s` holds.
pub proof fn lemma_insert_to_multiset(s: Seq<Seq<char>>, p: int, x: Seq<char>)
    requires
        0 <= p <= s.len(),
    ensures
        s.insert(p, x).to_multiset() == s.to_multiset().insert(x),
{
    let head = s.subrange(0, p);
    let tail = s.subrange(p, s.len() as int);
    assert(s =~= head + tail);
    vstd::seq_lib::lemma_multiset_commutative(head, tail);
    vstd::seq_lib::lemma_multiset_commutative(head.push(x), tail);
    head.to_multiset_ensures();
    assert(s.insert(p, x).to_multiset() =~= s.to_multiset().insert(x));
}

/// A sorted list stays sorted when `x` goes in behind all that is at most
/// `x` and before all that is at least `x`.
pub proof fn lemma_insert_sorted(s: Seq<Seq<char>>, p: int, x: Seq<char>)
    requires
        vstd::relations::sorted_by(s, text_order()),
        0 <= p <= s.len(),
        forall|j: int| 0 <= j < p ==> lex_le(#[trigger] s[j], x),
        forall|j: int| p <= j < s.len() ==> lex_le(x, #[trigger] s[j]),
    ensures
        vstd::relations::sorted_by(s.insert(p, x), text_order()),
{
    let t = s.insert(p, x);
    assert forall|i: int, j: int| 0 <= i < j < t.len() implies #[trigger] text_order()(
        t[i],
        t[j],
    ) by {
        let a = if i < p {
            i
        } else {
            i - 1
        };
        let b = if j < p {
            j
        } else {
            j - 1
        };
        if i != p && j != p {
            assert(t[i] == s[a]);
            assert(t[j] == s[b]);
            assert(text_order()(s[a], s[b]));
        } else if i == p {
            assert(t[j] == s[b]);
            assert(lex_le(x, s[b]));
        } else {
            assert(t[i] == s[a]);
            assert(lex_le(s[a], x));
        }
    }
}

/// The characters of `s`, in order.
pub fn to_chars(s: &str) -> (r: Vec<char>)
    ensures
        r@ == s@,
{
    let mut out: Vec<char> = Vec::new();
    for c in iter: s.chars()
        invariant
            out@ == iter.seq().take(iter.index() as int),
            iter.seq() == s@,
    {
        out.push(c);
    }
    out
}

/// Reads an unsigned decimal number that is at most `max`.
pub fn parse_decimal(s: &Vec<char>, max: u64) -> (r: Option<u64>)
    ensures
        match r {
            Some(v) => number_of(s@, max as nat) == Some(v as nat),
            None => number_of(s@, max as nat) is None,
        },
{
    let n = s.len();
    let start: usize = if n > 0 && s[0] == '+' {
        1
    } else {
        0
    };
    let ghost body = unsigned_body(s@);
    assert(body =~= s@.skip(start as int));
    if start == n {
        return None;
    }
    let mut acc: u64 = 0;
    let mut i: usize = start;
    while i < n
        invariant
            start <= i <= n,
            n == s.len(),
            body == s@.skip(start as int),
            body == unsigned_body(s@),
            all_digits(body.take(i - start)),
            acc == decimal_value(body.take(i - start)),
            acc <= max,
        decreases n - i,
    {
        let c = s[i];
        assert(body[i - start] == c);
        if !(c >= '0' && c <= '9') {
            assert(!is_digit(body[i - start]));
            return None;
        }
        let d: u64 = (c as u32 - '0' as u32) as u64;
        let next: u128 = acc as u128 * 10 + d as u128;
        proof {
            assert(body.take(i + 1 - start) =~= body.take(i - start).push(c));
            lemma_decimal_value_push(body.take(i - start), c);
            lemma_decimal_value_prefix(body, i + 1 - start);
        }
        if next > max as u128 {
            assert(decimal_value(body) >= next);
            return None;
        }
        acc = next as u64;
        i = i + 1;
    }
    assert(body.take(n - start) =~= body);
    Some(acc)
}

/// Reads a `u64` as `str::parse` does: an optional `+`, then decimal digits.
pub fn parse_u64(s: &str) -> (r: Option<u64>)
    ensures
        match r {
            Some(v) => number_of(s@, u64::MAX as nat) == Some(v as nat),
            None => number_of(s@, u64::MAX as nat) is None,
        },
{
    let chars = to_chars(s);
    parse_decimal(&chars, u64::MAX)
}

/// Reads a `u32` as `str::parse` does: an optional `+`, then decimal digits.
pub fn parse_u32(s: &str) -> (r: Option<u32>)
    ensures
        match r {
            Some(v) => number_of(s@, u32::MAX as nat) == Some(v as nat),
            None => number_of(s@, u32::MAX as nat) is None,
        },
{
    let chars = to_chars(s);
    match parse_decimal(&chars, 0xffff_ffff) {
        Some(v) => Some(v as u32),
        None => None,
    }
}

/// Writes `n` in decimal, without sign or leading zeros.
pub fn decimal_string(n: u64) -> (r: String)
    ensures
        r@ == decimal_digits(n as nat),
    decreases n,
{
    let digits = "0123456789";
    proof {
        reveal_strlit("0123456789");
    }
    let d: usize = (n % 10) as usize;
    let piece = digits.substring_char(d, d + 1);
    assert(piece@ =~= seq![digit_char(d as nat)]);
    if n < 10 {
        String::from_str(piece)
    } else {
        let mut head = decimal_string(n / 10);
        head.append(piece);
        assert(head@ =~= decimal_digits((n / 10) as nat).push(digit_char((n % 10) as nat)));
        head
    }
}

/// The position of the last `c` in `s`.
pub fn find_last(s: &Vec<char>, c: char) -> (r: Option<usize>)
    ensures
        match r {
            Some(i) => last_index(s@, c) == i,
            None => last_index(s@, c) == -1,
        },
{
    let mut i: usize = s.len();
    while i > 0
        invariant
            i <= s.len(),
            forall|j: int| i <= j < s.len() ==> s@[j] != c,
        decreases i,
    {
        i = i - 1;
        if s[i] == c {
            proof {
                lemma_last_index_at(s@, c, i as int);
            }
            return Some(i);
        }
    }
    proof {
        lemma_last_index_at(s@, c, -1);
    }
    None
}

/// Whether `a` comes before `b`, or equals it, in the lexicographic order.
pub fn lex_le_chars(a: &Vec<char>, b: &Vec<char>) -> (r: bool)
    ensures
        r == lex_le(a@, b@),
{
    let mut i: usize = 0;
    while i < a.len()
        invariant
            i <= a.len(),
            lex_le(a@, b@) == lex_le_from(a@, b@, i as int),
        decreases a.len() - i,
    {
        if i >= b.len() {
            return false;
        }
        if a[i] != b[i] {
            return a[i] < b[i];
        }
        i = i + 1;
    }
    true
}

/// Whether `a` comes before `b`, or equals it, in the lexicographic order.
pub fn lex_le_str(a: &str, b: &str) -> (r: bool)
    ensures
        r == lex_le(a@, b@),
{
    let left = to_chars(a);
    let right = to_chars(b);
    lex_le_chars(&left, &right)
}

/// Whether two strings hold the same text.
pub fn same_text(a: &str, b: &str) -> (r: bool)
    ensures
        r == (a@ == b@),
{
    let left = to_chars(a);
    let right = to_chars(b);
    if left.len() != right.len() {
        return false;
    }
    let mut i: usize = 0;
    while i < left.len()
        invariant
            i <= left.len(),
            left.len() == right.len(),
            left@ == a@,
            right@ == b@,
            forall|j: int| 0 <= j < i ==> left@[j] == right@[j],
        decreases left.len() - i,
    {
        if left[i] != right[i] {
            return false;
        }
        i = i + 1;
    }
    assert(left@ =~= right@);
    true
}

/// A copy of `list` in lexicographic order, least first.
pub fn sort_texts(list: &Vec<String>) -> (r: Vec<String>)
    ensures
        texts(r@) == sorted_texts(texts(list@)),
{
    let ghost all = texts(list@);
    let mut out: Vec<String> = Vec::new();
    let mut i: usize = 0;
    assert(texts(out@) =~= all.take(0));
    while i < list.len()
        invariant
            i <= list.len(),
            all == texts(list@),
            vstd::relations::sorted_by(texts(out@), text_order()),
            texts(out@).to_multiset() == all.take(i as int).to_multiset(),
        decreases list.len() - i,
    {
        let item = list[i].clone();
        let ghost before = texts(out@);
        let mut p: usize = out.len();
        while p > 0 && !lex_le_str(out[p - 1].as_str(), item.as_str())
            invariant
                p <= out.len(),
                before == texts(out@),
                forall|j: int| p <= j < out.len() ==> lex_le(item@, #[trigger] before[j]),
            decreases p,
        {
            proof {
                lemma_lex_le_connected(item@, before[p - 1], 0);
            }
            p = p - 1;
        }
        proof {
            assert forall|j: int| 0 <= j < p implies lex_le(#[trigger] before[j], item@) by {
                assert(lex_le(before[p - 1], item@));
                if j < p - 1 {
                    assert(text_order()(before[j], before[p - 1]));
                    lemma_lex_le_transitive(before[j], before[p - 1], item@, 0);
                }
            }
            lemma_insert_sorted(before, p as int, item@);
            lemma_insert_to_multiset(before, p as int, item@);
            assert(all.take(i + 1) =~= all.take(i as int).push(item@));
            all.take(i as int).to_multiset_ensures();
        }
        out.insert(p, item);
        assert(texts(out@) =~= before.insert(p as int, item@));
        i = i + 1;
    }
    proof {
        assert(all.take(list.len() as int) =~= all);
        lemma_sorted_texts(all);
        lemma_lex_le_total_order();
        vstd::seq_lib::lemma_sorted_unique(texts(out@), sorted_texts(all), text_order());
    }
    out
}

/// Whether `list` holds a string with the text of `p`.
pub fn contains_text(list: &Vec<String>, p: &String) -> (r: bool)
    ensures
        r == texts(list@).contains(p@),
{
    let mut i: usize = 0;
    while i < list.len()
        invariant
            i <= list.len(),
            forall|j: int| 0 <= j < i ==> texts(list@)[j] != p@,
        decreases list.len() - i,
    {
        if list[i] == *p {
            assert(texts(list@)[i as int] == p@);
            return true;
        }
        i = i + 1;
    }
    false
}

/// Cuts `s` into its fields at every `sep`.
pub fn split_fields(s: &str, sep: char) -> (r: Vec<String>)
    ensures
        texts(r@) == split(s@, sep),
{
    let chars = to_chars(s);
    let n = chars.len();
    let mut out: Vec<String> = Vec::new();
    let mut start: usize = 0;
    let mut i: usize = 0;
    assert(s@.skip(0) =~= s@);
    while i < n
        invariant
            start <= i <= n,
            n == s@.len(),
            chars@ == s@,
            forall|j: int| start <= j < i ==> s@[j] != sep,
            split(s@, sep) == texts(out@) + split(s@.skip(start as int), sep),
        decreases n - i,
    {
        if chars[i] == sep {
            let field = String::from_str(s.substring_char(start, i));
            proof {
                let rest = s@.skip(start as int);
                lemma_first_index_at(rest, sep, i - start);
                assert(rest.take(i - start) =~= s@.subrange(start as int, i as int));
                assert(rest.skip(i - start + 1) =~= s@.skip(i + 1));
                assert(texts(out@.push(field)) =~= texts(out@).push(field@));
                assert(texts(out@) + (seq![field@] + split(s@.skip(i + 1), sep)) =~= texts(
                    out@,
                ).push(field@) + split(s@.skip(i + 1), sep));
            }
            out.push(field);
            start = i + 1;
        }
        i = i + 1;
    }
    let field = String::from_str(s.substring_char(start, n));
    proof {
        let rest = s@.skip(start as int);
        lemma_first_index_at(rest, sep, n - start);
        assert(rest =~= s@.subrange(start as int, n as int));
        assert(texts(out@.push(field)) =~= texts(out@).push(field@));
        assert(texts(out@) + seq![rest] =~= texts(out@).push(field@));
    }
    out.push(field);
    out
}

} // verus!
