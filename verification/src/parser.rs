//! Splits a command line into words: whitespace separates words, a double
//! quote starts a run taken as it stands up to the next double quote, and
//! `\"` stands for a quote inside a word.

use vstd::prelude::*;
use vstd::string::StringSliceAdditionalSpecFns;

verus! {

/// A space, tab, carriage return or line feed.
pub open spec fn is_space(c: u8) -> bool {
    c == 0x20 || c == 0x09 || c == 0x0d || c == 0x0a
}

/// The first position at or after `j` that holds a double quote.
pub open spec fn next_quote(b: Seq<u8>, j: int) -> Option<int>
    decreases b.len() - j,
{
    if j < 0 || j >= b.len() {
        None
    } else if b[j] == 0x22 {
        Some(j)
    } else {
        next_quote(b, j + 1)
    }
}

/// The words of `b` from position `i` on, given the word `cur` being built
/// and the words `words` already complete; `None` where the line ends inside
/// a quoted run or right after a backslash.
///
/// - whitespace ends a non-empty word;
/// - a backslash followed by a quote adds a quote to the word;
/// - a backslash followed by any other byte adds that byte, which is then
///   read again as the next byte;
/// - a quote ends the word with everything up to the next quote added;
/// - any other byte is added to the word;
/// - at the end of the line the word being built is always a word, even empty.
pub open spec fn scan(b: Seq<u8>, i: int, cur: Seq<u8>, words: Seq<Seq<u8>>) -> Option<Seq<Seq<u8>>>
    decreases b.len() - i,
{
    if i < 0 || i >= b.len() {
        Some(words.push(cur))
    } else {
        let c = b[i];
        if is_space(c) {
            scan(b, i + 1, Seq::empty(), if cur.len() > 0 { words.push(cur) } else { words })
        } else if c == 0x5c {
            if i + 1 >= b.len() {
                None
            } else if b[i + 1] == 0x22 {
                scan(b, i + 2, cur.push(0x22), words)
            } else {
                scan(b, i + 1, cur.push(b[i + 1]), words)
            }
        } else if c == 0x22 {
            match next_quote(b, i + 1) {
                None => None,
                Some(j) => if j < i + 1 || j >= b.len() {
                    None
                } else {
                    scan(b, j + 1, Seq::empty(), words.push(cur + b.subrange(i + 1, j)))
                },
            }
        } else {
            scan(b, i + 1, cur.push(c), words)
        }
    }
}

/// The words of a whole line.
pub open spec fn words_of(b: Seq<u8>) -> Option<Seq<Seq<u8>>> {
    scan(b, 0, Seq::empty(), Seq::empty())
}

proof fn lemma_next_quote(b: Seq<u8>, j: int)
    ensures
        next_quote(b, j) matches Some(k) ==> j <= k < b.len() && b[k] == 0x22 && forall|m: int|
            j <= m < k ==> b[m] != 0x22,
        next_quote(b, j) is None && 0 <= j ==> forall|m: int| j <= m < b.len() ==> b[m] != 0x22,
    decreases b.len() - j,
{
    if 0 <= j < b.len() && b[j] != 0x22 {
        lemma_next_quote(b, j + 1);
    }
}

/// `b` holds no double quote and no backslash.
pub open spec fn unquoted(b: Seq<u8>) -> bool {
    forall|i: int| 0 <= i < b.len() ==> b[i] != 0x22 && b[i] != 0x5c
}

/// What is left of the words of a line once the line ends in whitespace:
/// the word being built is dropped when it is empty.
pub open spec fn closed_words(w: Seq<Seq<u8>>) -> Seq<Seq<u8>> {
    if w.len() > 0 && w.last().len() == 0 {
        w.drop_last()
    } else {
        w
    }
}

proof fn lemma_scan_offset(p: Seq<u8>, c: Seq<u8>, j: int, cur: Seq<u8>, words: Seq<Seq<u8>>)
    requires
        unquoted(c),
        0 <= j,
    ensures
        scan(p + c, p.len() + j, cur, words) == scan(c, j, cur, words),
    decreases c.len() - j,
{
    let l = p + c;
    if j < c.len() {
        assert(l[p.len() + j] == c[j]);
        let x = c[j];
        if is_space(x) {
            lemma_scan_offset(p, c, j + 1, Seq::empty(), if cur.len() > 0 { words.push(cur) } else { words });
        } else {
            lemma_scan_offset(p, c, j + 1, cur.push(x), words);
        }
    }
}

proof fn lemma_scan_accumulates(y: Seq<u8>, j: int, cur: Seq<u8>, words: Seq<Seq<u8>>)
    requires
        unquoted(y),
        0 <= j,
    ensures
        scan(y, j, cur, words) is Some,
        scan(y, j, cur, Seq::empty()) is Some,
        scan(y, j, cur, words)->Some_0 == words + scan(y, j, cur, Seq::empty())->Some_0,
    decreases y.len() - j,
{
    if j >= y.len() {
        assert(words.push(cur) =~= words + Seq::<Seq<u8>>::empty().push(cur));
    } else {
        let x = y[j];
        if is_space(x) {
            let ws = if cur.len() > 0 { words.push(cur) } else { words };
            let es = if cur.len() > 0 { Seq::<Seq<u8>>::empty().push(cur) } else { Seq::<Seq<u8>>::empty() };
            lemma_scan_accumulates(y, j + 1, Seq::empty(), ws);
            lemma_scan_accumulates(y, j + 1, Seq::empty(), es);
            let rest = scan(y, j + 1, Seq::empty(), Seq::empty())->Some_0;
            assert(ws + rest =~= words + (es + rest));
        } else {
            lemma_scan_accumulates(y, j + 1, cur.push(x), words);
            lemma_scan_accumulates(y, j + 1, cur.push(x), Seq::empty());
        }
    }
}

proof fn lemma_scan_split(a: Seq<u8>, sp: u8, c: Seq<u8>, i: int, cur: Seq<u8>, words: Seq<Seq<u8>>)
    requires
        unquoted(a),
        unquoted(c),
        is_space(sp),
        0 <= i <= a.len(),
    ensures
        scan(a, i, cur, words) is Some,
        scan(a.push(sp) + c, i, cur, words) == scan(c, 0, Seq::empty(), closed_words(scan(a, i, cur, words)->Some_0)),
    decreases a.len() - i,
{
    let l = a.push(sp) + c;
    if i == a.len() {
        assert(l[i] == sp);
        assert(words.push(cur).drop_last() =~= words);
        lemma_scan_offset(a.push(sp), c, 0, Seq::empty(), if cur.len() > 0 { words.push(cur) } else { words });
    } else {
        assert(l[i] == a[i]);
        let x = a[i];
        if is_space(x) {
            lemma_scan_split(a, sp, c, i + 1, Seq::empty(), if cur.len() > 0 { words.push(cur) } else { words });
        } else {
            lemma_scan_split(a, sp, c, i + 1, cur.push(x), words);
        }
    }
}

/// Any one of space, tab, carriage return and line feed separates words:
/// the words of two lines without quotes or backslashes joined by one of
/// those bytes are the words of the first, less its trailing empty word,
/// followed by the words of the second. So none of the four bytes is ever
/// kept inside a word, and runs of them count as one separator.
pub proof fn lemma_whitespace_separates_words(a: Seq<u8>, sp: u8, c: Seq<u8>)
    requires
        unquoted(a),
        unquoted(c),
        sp == 0x20 || sp == 0x09 || sp == 0x0d || sp == 0x0a,
    ensures
        words_of(a) is Some,
        words_of(c) is Some,
        words_of(a.push(sp) + c) == Some(closed_words(words_of(a)->Some_0) + words_of(c)->Some_0),
{
    lemma_scan_split(a, sp, c, 0, Seq::empty(), Seq::empty());
    lemma_scan_accumulates(c, 0, Seq::empty(), closed_words(words_of(a)->Some_0));
    lemma_scan_accumulates(c, 0, Seq::empty(), Seq::empty());
}

proof fn lemma_scan_one_word(a: Seq<u8>, i: int, cur: Seq<u8>, words: Seq<Seq<u8>>)
    requires
        forall|k: int|
            0 <= k < a.len() ==> a[k] != 0x20 && a[k] != 0x09 && a[k] != 0x0d && a[k] != 0x0a && a[k] != 0x22
                && a[k] != 0x5c,
        0 <= i <= a.len(),
    ensures
        scan(a, i, cur, words) == Some(words.push(cur + a.subrange(i, a.len() as int))),
    decreases a.len() - i,
{
    if i == a.len() {
        assert(cur + a.subrange(i, a.len() as int) =~= cur);
    } else {
        lemma_scan_one_word(a, i + 1, cur.push(a[i]), words);
        assert(cur.push(a[i]) + a.subrange(i + 1, a.len() as int) =~= cur + a.subrange(i, a.len() as int));
    }
}

/// A line with no whitespace, quote or backslash is one word: itself.
pub proof fn lemma_plain_line_is_one_word(a: Seq<u8>)
    requires
        forall|k: int|
            0 <= k < a.len() ==> a[k] != 0x20 && a[k] != 0x09 && a[k] != 0x0d && a[k] != 0x0a && a[k] != 0x22
                && a[k] != 0x5c,
    ensures
        words_of(a) == Some(seq![a]),
{
    lemma_scan_one_word(a, 0, Seq::empty(), Seq::empty());
    assert(Seq::<u8>::empty() + a.subrange(0, a.len() as int) =~= a);
    assert(Seq::<Seq<u8>>::empty().push(a) =~= seq![a]);
}

/// No whitespace byte in any of `words`.
pub open spec fn free_of_whitespace(words: Seq<Seq<u8>>) -> bool {
    forall|w: int, k: int|
        0 <= w < words.len() && 0 <= k < words[w].len() ==> #[trigger] words[w][k] != 0x20 && words[w][k] != 0x09
            && words[w][k] != 0x0d && words[w][k] != 0x0a
}

proof fn lemma_scan_free_of_whitespace(b: Seq<u8>, i: int, cur: Seq<u8>, words: Seq<Seq<u8>>)
    requires
        unquoted(b),
        0 <= i,
        free_of_whitespace(words),
        free_of_whitespace(seq![cur]),
    ensures
        scan(b, i, cur, words) matches Some(ws) && free_of_whitespace(ws),
    decreases b.len() - i,
{
    if i >= b.len() {
        assert(free_of_whitespace(words.push(cur))) by {
            assert forall|w: int, k: int| 0 <= w < words.push(cur).len() && 0 <= k < words.push(cur)[w].len()
                implies #[trigger] words.push(cur)[w][k] != 0x20 && words.push(cur)[w][k] != 0x09 && words.push(
                cur,
            )[w][k] != 0x0d && words.push(cur)[w][k] != 0x0a by {
                if w == words.len() {
                    assert(seq![cur][0][k] == cur[k]);
                }
            }
        }
    } else {
        let x = b[i];
        if is_space(x) {
            let ws = if cur.len() > 0 { words.push(cur) } else { words };
            assert(free_of_whitespace(ws)) by {
                assert forall|w: int, k: int| 0 <= w < words.push(cur).len() && 0 <= k < words.push(cur)[w].len()
                    implies #[trigger] words.push(cur)[w][k] != 0x20 && words.push(cur)[w][k] != 0x09
                    && words.push(cur)[w][k] != 0x0d && words.push(cur)[w][k] != 0x0a by {
                    if w == words.len() {
                        assert(seq![cur][0][k] == cur[k]);
                    }
                }
            }
            assert(free_of_whitespace(seq![Seq::<u8>::empty()]));
            lemma_scan_free_of_whitespace(b, i + 1, Seq::empty(), ws);
        } else {
            assert(free_of_whitespace(seq![cur.push(x)])) by {
                assert forall|w: int, k: int| 0 <= w < 1 && 0 <= k < seq![cur.push(x)][w].len()
                    implies #[trigger] seq![cur.push(x)][w][k] != 0x20 && seq![cur.push(x)][w][k] != 0x09
                    && seq![cur.push(x)][w][k] != 0x0d && seq![cur.push(x)][w][k] != 0x0a by {
                    if k < cur.len() {
                        assert(seq![cur][0][k] == cur[k]);
                    }
                }
            }
            lemma_scan_free_of_whitespace(b, i + 1, cur.push(x), words);
        }
    }
}

/// In a line without quotes or backslashes, no word holds a space, tab,
/// carriage return or line feed.
pub proof fn lemma_words_hold_no_whitespace(b: Seq<u8>)
    requires
        unquoted(b),
    ensures
        words_of(b) matches Some(ws) && free_of_whitespace(ws),
{
    assert(free_of_whitespace(seq![Seq::<u8>::empty()]));
    lemma_scan_free_of_whitespace(b, 0, Seq::empty(), Seq::empty());
}

/// The words of a command line.
pub struct Parser {
    elements: Vec<Vec<u8>>,
}

impl View for Parser {
    type V = Seq<Seq<u8>>;

    closed spec fn view(&self) -> Seq<Seq<u8>> {
        self.elements@.map_values(|w: Vec<u8>| w@)
    }
}

impl Parser {
    /// Splits `string` into words. Refuses a line that ends inside a quoted
    /// run or right after a backslash.
    pub fn try_new(string: &str) -> (r: Option<Parser>)
        ensures
            words_of(string.spec_bytes()) is None ==> r is None,
            words_of(string.spec_bytes()) matches Some(w) ==> (r matches Some(p) && p@ == w),
    {
        let b = string.as_bytes();
        let n = b.len();
        let mut i: usize = 0;
        let mut cur: Vec<u8> = Vec::new();
        let mut elements: Vec<Vec<u8>> = Vec::new();
        assert(elements@.map_values(|w: Vec<u8>| w@) =~= Seq::<Seq<u8>>::empty());
        assert(cur@ =~= Seq::<u8>::empty());
        while i < n
            invariant
                n == b@.len(),
                b@ == string.spec_bytes(),
                i <= n,
                words_of(b@) == scan(b@, i as int, cur@, elements@.map_values(|w: Vec<u8>| w@)),
            decreases n - i,
        {
            let ghost words = elements@.map_values(|w: Vec<u8>| w@);
            let c = b[i];
            if Self::is_whitespace_byte(c) {
                if cur.len() > 0 {
                    let done = cur;
                    elements.push(done);
                    assert(elements@.map_values(|w: Vec<u8>| w@) =~= words.push(done@));
                }
                cur = Vec::new();
                assert(cur@ =~= Seq::<u8>::empty());
                i = i + 1;
            } else if c == 0x5c {
                if i + 1 >= n {
                    return None;
                }
                if b[i + 1] == 0x22 {
                    cur.push(0x22);
                    i = i + 2;
                } else {
                    cur.push(b[i + 1]);
                    i = i + 1;
                }
            } else if c == 0x22 {
                proof {
                    lemma_next_quote(b@, i + 1);
                }
                let mut j: usize = i + 1;
                let mut quoted: Vec<u8> = Vec::new();
                while j < n && b[j] != 0x22
                    invariant
                        n == b@.len(),
                        i < j <= n,
                        next_quote(b@, i + 1) == next_quote(b@, j as int),
                        quoted@ == b@.subrange(i + 1, j as int),
                    decreases n - j,
                {
                    quoted.push(b[j]);
                    assert(quoted@ =~= b@.subrange(i + 1, j + 1));
                    j = j + 1;
                }
                if j >= n {
                    return None;
                }
                let mut done = cur;
                done.append(&mut quoted);
                elements.push(done);
                assert(elements@.map_values(|w: Vec<u8>| w@) =~= words.push(cur@ + b@.subrange(i + 1, j as int)));
                cur = Vec::new();
                assert(cur@ =~= Seq::<u8>::empty());
                i = j + 1;
            } else {
                cur.push(c);
                i = i + 1;
            }
        }
        let ghost words = elements@.map_values(|w: Vec<u8>| w@);
        let last = cur;
        elements.push(last);
        assert(elements@.map_values(|w: Vec<u8>| w@) =~= words.push(last@));
        Some(Parser { elements })
    }

    /// Splits `string` into words.
    pub fn new(string: &str) -> (p: Parser)
        requires
            words_of(string.spec_bytes()) is Some,
        ensures
            words_of(string.spec_bytes()) == Some(p@),
    {
        match Self::try_new(string) {
            Some(p) => p,
            None => Parser { elements: Vec::new() },
        }
    }

    /// A space, tab, carriage return or line feed.
    pub fn is_whitespace(c: char) -> (r: bool)
        ensures
            r == (c == ' ' || c == '\t' || c == '\r' || c == '\n'),
    {
        c == ' ' || c == '\t' || c == '\r' || c == '\n'
    }

    fn is_whitespace_byte(c: u8) -> (r: bool)
        ensures
            r == is_space(c),
    {
        c == 0x20 || c == 0x09 || c == 0x0d || c == 0x0a
    }

    /// The words, in order.
    pub fn iter(&self) -> (words: Vec<Vec<u8>>)
        ensures
            words@.map_values(|w: Vec<u8>| w@) == self@,
    {
        let mut out: Vec<Vec<u8>> = Vec::new();
        let mut i: usize = 0;
        while i < self.elements.len()
            invariant
                i <= self.elements@.len(),
                out@.map_values(|w: Vec<u8>| w@) =~= self@.take(i as int),
            decreases self.elements@.len() - i,
        {
            let w = vstd::slice::slice_to_vec(self.elements[i].as_slice());
            out.push(w);
            assert(self@.take(i + 1) =~= self@.take(i as int).push(self.elements@[i as int]@));
            i = i + 1;
        }
        assert(self@.take(i as int) =~= self@);
        out
    }
}

} // verus!
