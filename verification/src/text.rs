//! Character and string groundwork: whitespace classification, word
//! counting, decimal rendering of counters, string comparison, prefix and
//! suffix tests, and the three-part split of a document source.
use vstd::prelude::*;
use vstd::string::*;

verus! {

/// The Unicode `White_Space` code points, the separators that word counting
/// goes by.
pub open spec fn is_ws(c: char) -> bool {
    c == ' ' || c == '\t' || c == '\n' || c == '\u{b}' || c == '\u{c}' || c == '\r'
        || c == '\u{85}' || c == '\u{a0}' || c == '\u{1680}'
        || ('\u{2000}' <= c && c <= '\u{200a}')
        || c == '\u{2028}' || c == '\u{2029}' || c == '\u{202f}' || c == '\u{205f}'
        || c == '\u{3000}'
}

/// Executable form of [`is_ws`].
pub fn is_ws_char(c: char) -> (r: bool)
    ensures
        r == is_ws(c),
{
    c == ' ' || c == '\t' || c == '\n' || c == '\u{b}' || c == '\u{c}' || c == '\r'
        || c == '\u{85}' || c == '\u{a0}' || c == '\u{1680}'
        || ('\u{2000}' <= c && c <= '\u{200a}')
        || c == '\u{2028}' || c == '\u{2029}' || c == '\u{202f}' || c == '\u{205f}'
        || c == '\u{3000}'
}

/// Number of maximal whitespace-free runs in `s` from index `i` on;
/// `boundary` says whether position `i` starts fresh (true at the start of
/// the text or right after a whitespace character).
pub open spec fn words_from(s: Seq<char>, i: int, boundary: bool) -> nat
    decreases s.len() - i,
{
    if i < 0 || i >= s.len() {
        0
    } else if is_ws(s[i]) {
        words_from(s, i + 1, true)
    } else {
        (if boundary { 1nat } else { 0nat }) + words_from(s, i + 1, false)
    }
}

/// Number of whitespace-separated words in `s`.
pub open spec fn word_count(s: Seq<char>) -> nat {
    words_from(s, 0, true)
}

/// Counts the whitespace-separated words of `s`.
pub fn count_words(s: &str) -> (r: usize)
    ensures
        r == word_count(s@),
{
    let n: usize = s.unicode_len();
    let mut i: usize = 0;
    let mut boundary: bool = true;
    let mut count: usize = 0;
    while i < n
        invariant
            n == s@.len(),
            0 <= i <= n,
            count <= i,
            word_count(s@) == count + words_from(s@, i as int, boundary),
        decreases n - i,
    {
        let c = s.get_char(i);
        if is_ws_char(c) {
            boundary = true;
        } else {
            if boundary {
                count = count + 1;
            }
            boundary = false;
        }
        i = i + 1;
    }
    count
}

/// Reading time in minutes: the word count divided by 200 and rounded up,
/// with a minimum of one minute.
pub open spec fn reading_time_of(words: nat) -> nat {
    if words == 0 {
        1
    } else {
        1 + ((words - 1) / 200) as nat
    }
}

/// Computes the reading time of a body from its word count.
pub fn reading_time(words: usize) -> (r: usize)
    ensures
        r == reading_time_of(words as nat),
{
    if words == 0 {
        1
    } else {
        1 + (words - 1) / 200
    }
}

/// The digit character for `d`, which must be below ten.
pub open spec fn digit_char(d: nat) -> char {
    if d == 0 { '0' }
    else if d == 1 { '1' }
    else if d == 2 { '2' }
    else if d == 3 { '3' }
    else if d == 4 { '4' }
    else if d == 5 { '5' }
    else if d == 6 { '6' }
    else if d == 7 { '7' }
    else if d == 8 { '8' }
    else { '9' }
}

/// Decimal rendering of `n`, without leading zeros (a single `0` for zero).
pub open spec fn dec_of(n: nat) -> Seq<char>
    decreases n,
{
    if n < 10 {
        seq![digit_char(n)]
    } else {
        dec_of(n / 10).push(digit_char(n % 10))
    }
}

/// The single-character string for a digit below ten.
pub fn digit_str(d: u64) -> (r: &'static str)
    requires
        d < 10,
    ensures
        r@ =~= seq![digit_char(d as nat)],
{
    proof {
        reveal_strlit("0");
        reveal_strlit("1");
        reveal_strlit("2");
        reveal_strlit("3");
        reveal_strlit("4");
        reveal_strlit("5");
        reveal_strlit("6");
        reveal_strlit("7");
        reveal_strlit("8");
        reveal_strlit("9");
    }
    if d == 0 { "0" }
    else if d == 1 { "1" }
    else if d == 2 { "2" }
    else if d == 3 { "3" }
    else if d == 4 { "4" }
    else if d == 5 { "5" }
    else if d == 6 { "6" }
    else if d == 7 { "7" }
    else if d == 8 { "8" }
    else { "9" }
}

/// Renders `n` in decimal.
pub fn u64_dec(n: u64) -> (r: String)
    ensures
        r@ == dec_of(n as nat),
    decreases n,
{
    if n < 10 {
        let r = digit_str(n).to_owned();
        proof {
            assert(r@ =~= dec_of(n as nat));
        }
        r
    } else {
        let mut s = u64_dec(n / 10);
        s.append(digit_str(n % 10));
        proof {
            assert(s@ =~= dec_of(n as nat));
        }
        s
    }
}

/// Character-for-character string equality.
pub fn str_eq(a: &str, b: &str) -> (r: bool)
    ensures
        r == (a@ == b@),
{
    let an: usize = a.unicode_len();
    let bn: usize = b.unicode_len();
    if an != bn {
        proof {
            assert(a@ != b@) by {
                assert(a@.len() != b@.len());
            }
        }
        return false;
    }
    let mut i: usize = 0;
    while i < an
        invariant
            an == a@.len() && an == b@.len(),
            0 <= i <= an,
            forall|j: int| 0 <= j < i ==> a@[j] == b@[j],
        decreases an - i,
    {
        if a.get_char(i) != b.get_char(i) {
            return false;
        }
        i = i + 1;
    }
    proof {
        assert(a@ =~= b@);
    }
    true
}

/// Whether `p` is a prefix of `s`.
pub open spec fn is_prefix_of(p: Seq<char>, s: Seq<char>) -> bool {
    p.len() <= s.len() && s.take(p.len() as int) == p
}

/// Whether `p` is a suffix of `s`.
pub open spec fn is_suffix_of(p: Seq<char>, s: Seq<char>) -> bool {
    p.len() <= s.len() && s.skip(s.len() - p.len()) == p
}

/// Tests whether `s` starts with `p`.
pub fn starts_with(s: &str, p: &str) -> (r: bool)
    ensures
        r == is_prefix_of(p@, s@),
{
    let sn: usize = s.unicode_len();
    let pn: usize = p.unicode_len();
    if pn > sn {
        return false;
    }
    let mut i: usize = 0;
    while i < pn
        invariant
            sn == s@.len() && pn == p@.len() && pn <= sn,
            0 <= i <= pn,
            forall|j: int| 0 <= j < i ==> s@[j] == p@[j],
        decreases pn - i,
    {
        if s.get_char(i) != p.get_char(i) {
            proof {
                assert(s@.take(pn as int)[i as int] != p@[i as int]);
            }
            return false;
        }
        i = i + 1;
    }
    proof {
        assert(s@.take(pn as int) =~= p@);
    }
    true
}

/// Tests whether `s` ends with `p`.
pub fn ends_with(s: &str, p: &str) -> (r: bool)
    ensures
        r == is_suffix_of(p@, s@),
{
    let sn: usize = s.unicode_len();
    let pn: usize = p.unicode_len();
    if pn > sn {
        return false;
    }
    let base: usize = sn - pn;
    let mut i: usize = 0;
    while i < pn
        invariant
            sn == s@.len() && pn == p@.len() && pn <= sn,
            base == sn - pn,
            0 <= i <= pn,
            forall|j: int| 0 <= j < i ==> s@[base + j] == p@[j],
        decreases pn - i,
    {
        if s.get_char(base + i) != p.get_char(i) {
            proof {
                assert(s@.skip(base as int)[i as int] != p@[i as int]);
            }
            return false;
        }
        i = i + 1;
    }
    proof {
        assert(s@.skip(base as int) =~= p@);
    }
    true
}

/// Whether the metadata delimiter `+++` stands at position `i` of `s`.
pub open spec fn has_delim_at(s: Seq<char>, i: int) -> bool {
    0 <= i && i + 3 <= s.len() && s[i] == '+' && s[i + 1] == '+' && s[i + 2] == '+'
}

/// The position of the first `+++` at or after `from`, if any.
pub open spec fn find_delim_from(s: Seq<char>, from: int) -> Option<int>
    decreases s.len() - from,
{
    if from < 0 || from + 3 > s.len() {
        None
    } else if has_delim_at(s, from) {
        Some(from)
    } else {
        find_delim_from(s, from + 1)
    }
}

/// Finds the first `+++` at or after `from`.
fn find_delim(s: &str, from: usize) -> (r: Option<usize>)
    requires
        from <= s@.len(),
    ensures
        match r {
            Some(i) => find_delim_from(s@, from as int) == Some(i as int) && from <= i && i + 3
                <= s@.len(),
            None => find_delim_from(s@, from as int) is None,
        },
{
    let n: usize = s.unicode_len();
    if n < 3 {
        return None;
    }
    let mut i: usize = from;
    while i <= n - 3
        invariant
            n == s@.len(),
            3 <= n,
            from <= i,
            i <= n,
            find_delim_from(s@, from as int) == find_delim_from(s@, i as int),
        decreases n - i,
    {
        if s.get_char(i) == '+' && s.get_char(i + 1) == '+' && s.get_char(i + 2) == '+' {
            return Some(i);
        }
        i = i + 1;
    }
    None
}

/// The metadata block and the body of a document source: the text between
/// the first and the second delimiter, and the text between the second and
/// the third (or the end, where no third exists). `None` where fewer than
/// two delimiters occur: such a file is no content document.
pub open spec fn split_doc(s: Seq<char>) -> Option<(Seq<char>, Seq<char>)> {
    match find_delim_from(s, 0) {
        None => None,
        Some(i1) => match find_delim_from(s, i1 + 3) {
            None => None,
            Some(i2) => {
                let body_end = match find_delim_from(s, i2 + 3) {
                    None => s.len() as int,
                    Some(i3) => i3,
                };
                Some((s.subrange(i1 + 3, i2), s.subrange(i2 + 3, body_end)))
            },
        },
    }
}

/// Splits a document source into its metadata block and its body.
pub fn split_document(s: &str) -> (r: Option<(String, String)>)
    ensures
        match r {
            Some(parts) => split_doc(s@) == Some((parts.0@, parts.1@)),
            None => split_doc(s@) is None,
        },
{
    let n: usize = s.unicode_len();
    let i1 = match find_delim(s, 0) {
        None => {
            return None;
        },
        Some(i) => i,
    };
    let i2 = match find_delim(s, i1 + 3) {
        None => {
            return None;
        },
        Some(i) => i,
    };
    let body_end: usize = match find_delim(s, i2 + 3) {
        None => n,
        Some(i) => i,
    };
    let meta = s.substring_char(i1 + 3, i2).to_owned();
    let body = s.substring_char(i2 + 3, body_end).to_owned();
    Some((meta, body))
}

/// Count of leading whitespace characters of `s`.
pub open spec fn ws_prefix_len(s: Seq<char>) -> int
    decreases s.len(),
{
    if s.len() == 0 {
        0
    } else if is_ws(s[0]) {
        1 + ws_prefix_len(s.drop_first())
    } else {
        0
    }
}

/// Count of trailing whitespace characters of `s`.
pub open spec fn ws_suffix_len(s: Seq<char>) -> int
    decreases s.len(),
{
    if s.len() == 0 {
        0
    } else if is_ws(s.last()) {
        1 + ws_suffix_len(s.drop_last())
    } else {
        0
    }
}

/// `s` with its leading and trailing whitespace removed.
pub open spec fn trim_of(s: Seq<char>) -> Seq<char> {
    if ws_prefix_len(s) == s.len() {
        Seq::empty()
    } else {
        s.subrange(ws_prefix_len(s), s.len() - ws_suffix_len(s))
    }
}

proof fn lemma_ws_prefix_at(s: Seq<char>, i: int)
    requires
        0 <= i <= s.len(),
        forall|j: int| 0 <= j < i ==> is_ws(#[trigger] s[j]),
        i < s.len() ==> !is_ws(s[i]),
    ensures
        ws_prefix_len(s) == i,
    decreases s.len(),
{
    if i == 0 {
    } else {
        let df = s.drop_first();
        assert(forall|j: int| 0 <= j < i - 1 ==> #[trigger] df[j] == s[j + 1]);
        if i - 1 < df.len() {
            assert(df[i - 1] == s[i]);
        }
        lemma_ws_prefix_at(df, i - 1);
    }
}

proof fn lemma_ws_suffix_at(s: Seq<char>, i: int)
    requires
        0 <= i <= s.len(),
        forall|j: int| s.len() - i <= j < s.len() ==> is_ws(#[trigger] s[j]),
        i < s.len() ==> !is_ws(s[s.len() - 1 - i]),
    ensures
        ws_suffix_len(s) == i,
    decreases s.len(),
{
    if i == 0 {
    } else {
        let dl = s.drop_last();
        assert(forall|j: int| 0 <= j < dl.len() ==> #[trigger] dl[j] == s[j]);
        lemma_ws_suffix_at(dl, i - 1);
    }
}

/// Removes leading and trailing whitespace, the final touch on a
/// rendered page before it is written out.
pub fn trim_text(s: &str) -> (r: String)
    ensures
        r@ == trim_of(s@),
{
    let n: usize = s.unicode_len();
    let mut a: usize = 0;
    while a < n && is_ws_char(s.get_char(a))
        invariant
            n == s@.len(),
            0 <= a <= n,
            forall|j: int| 0 <= j < a ==> is_ws(#[trigger] s@[j]),
        decreases n - a,
    {
        a = a + 1;
    }
    proof {
        lemma_ws_prefix_at(s@, a as int);
    }
    if a == n {
        proof {
            assert(trim_of(s@) =~= Seq::<char>::empty());
        }
        return String::new();
    }
    let mut b: usize = n;
    while b > a && is_ws_char(s.get_char(b - 1))
        invariant
            n == s@.len(),
            a <= b <= n,
            a < n,
            !is_ws(s@[a as int]),
            forall|j: int| b <= j < n ==> is_ws(#[trigger] s@[j]),
        decreases b,
    {
        b = b - 1;
    }
    proof {
        assert(b > a);
        lemma_ws_suffix_at(s@, n - b);
        assert(trim_of(s@) == s@.subrange(a as int, b as int));
    }
    s.substring_char(a, b).to_owned()
}

} // verus!
