//! Text: the characters of a string, building strings, Unicode white space,
//! trimming and splitting into words.

use vstd::prelude::*;

verus! {

/// `String::push`: appends the character `c` to `s`.
#[verifier::external_body]
pub(crate) fn push_char(s: &mut String, c: char)
    ensures
        final(s)@ == old(s)@.push(c),
{
    s.push(c)
}

/// The characters of `s`, in order.
pub fn chars_of(s: &str) -> (r: Vec<char>)
    ensures
        r@ == s@,
{
    let n = s.unicode_len();
    let mut r: Vec<char> = Vec::new();
    let mut i: usize = 0;
    while i < n
        invariant
            n == s@.len(),
            i <= n,
            r@ == s@.take(i as int),
        decreases n - i,
    {
        r.push(s.get_char(i));
        i += 1;
        assert(r@ =~= s@.take(i as int));
    }
    assert(s@.take(n as int) =~= s@);
    r
}

/// The string of the characters `cs`.
pub fn string_of(cs: &Vec<char>) -> (r: String)
    ensures
        r@ == cs@,
{
    let mut r = String::new();
    let mut i: usize = 0;
    while i < cs.len()
        invariant
            i <= cs.len(),
            r@ == cs@.take(i as int),
        decreases cs.len() - i,
    {
        push_char(&mut r, cs[i]);
        i += 1;
        assert(r@ =~= cs@.take(i as int));
    }
    assert(cs@.take(cs.len() as int) =~= cs@);
    r
}

/// Unicode white space (the `White_Space` property), as `char::is_whitespace`
/// decides it.
pub open spec fn is_white(c: char) -> bool {
    let u = c as u32;
    (9 <= u && u <= 13) || u == 32 || u == 0x85 || u == 0xa0 || u == 0x1680 || (0x2000 <= u
        && u <= 0x200a) || u == 0x2028 || u == 0x2029 || u == 0x202f || u == 0x205f || u
        == 0x3000
}

/// `char::is_whitespace`.
pub fn is_white_char(c: char) -> (b: bool)
    ensures
        b == is_white(c),
{
    let u = c as u32;
    (9 <= u && u <= 13) || u == 32 || u == 0x85 || u == 0xa0 || u == 0x1680 || (0x2000 <= u
        && u <= 0x200a) || u == 0x2028 || u == 0x2029 || u == 0x202f || u == 0x205f || u
        == 0x3000
}

/// `s` without its leading white space.
pub open spec fn trim_start_white(s: Seq<char>) -> Seq<char>
    decreases s.len(),
{
    if s.len() > 0 && is_white(s[0]) {
        trim_start_white(s.drop_first())
    } else {
        s
    }
}

/// `s` without its trailing white space.
pub open spec fn trim_end_white(s: Seq<char>) -> Seq<char>
    decreases s.len(),
{
    if s.len() > 0 && is_white(s.last()) {
        trim_end_white(s.drop_last())
    } else {
        s
    }
}

/// `str::trim`: `s` without leading and trailing white space.
pub open spec fn trim_white(s: Seq<char>) -> Seq<char> {
    trim_end_white(trim_start_white(s))
}

/// A quote character: `"`, and `'` too when `single` holds.
pub open spec fn is_quote(c: char, single: bool) -> bool {
    c == '"' || (single && c == '\'')
}

/// `s` without its leading quote characters.
pub open spec fn trim_start_quotes(s: Seq<char>, single: bool) -> Seq<char>
    decreases s.len(),
{
    if s.len() > 0 && is_quote(s[0], single) {
        trim_start_quotes(s.drop_first(), single)
    } else {
        s
    }
}

/// `s` without its trailing quote characters.
pub open spec fn trim_end_quotes(s: Seq<char>, single: bool) -> Seq<char>
    decreases s.len(),
{
    if s.len() > 0 && is_quote(s.last(), single) {
        trim_end_quotes(s.drop_last(), single)
    } else {
        s
    }
}

/// `str::trim_matches` with the quote characters.
pub open spec fn trim_quotes(s: Seq<char>, single: bool) -> Seq<char> {
    trim_end_quotes(trim_start_quotes(s, single), single)
}

/// Whether trimming removes `c`: white space when `white`, else quotes.
fn strips(c: char, white: bool, single: bool) -> (b: bool)
    ensures
        b == (if white { is_white(c) } else { is_quote(c, single) }),
{
    if white {
        is_white_char(c)
    } else {
        c == '"' || (single && c == '\'')
    }
}

/// The index of the first character of `s[lo..hi]` that trimming keeps
/// (trimming white space when `white`, else quotes).
fn skip_front(s: &Vec<char>, lo: usize, hi: usize, white: bool, single: bool) -> (r: usize)
    requires
        lo <= hi <= s.len(),
    ensures
        lo <= r <= hi,
        white ==> trim_start_white(s@.subrange(lo as int, hi as int)) == s@.subrange(r as int, hi as int),
        !white ==> trim_start_quotes(s@.subrange(lo as int, hi as int), single) == s@.subrange(r as int, hi as int),
{
    let mut i = lo;
    while i < hi && strips(s[i], white, single)
        invariant
            lo <= i <= hi <= s.len(),
            white ==> trim_start_white(s@.subrange(lo as int, hi as int)) == trim_start_white(s@.subrange(i as int, hi as int)),
            !white ==> trim_start_quotes(s@.subrange(lo as int, hi as int), single) == trim_start_quotes(s@.subrange(i as int, hi as int), single),
        decreases hi - i,
    {
        assert(s@.subrange(i as int, hi as int).drop_first() =~= s@.subrange(i + 1, hi as int));
        i += 1;
    }
    i
}

/// The index after the last character of `s[lo..hi]` that trimming keeps
/// (trimming white space when `white`, else quotes).
fn skip_back(s: &Vec<char>, lo: usize, hi: usize, white: bool, single: bool) -> (r: usize)
    requires
        lo <= hi <= s.len(),
    ensures
        lo <= r <= hi,
        white ==> trim_end_white(s@.subrange(lo as int, hi as int)) == s@.subrange(lo as int, r as int),
        !white ==> trim_end_quotes(s@.subrange(lo as int, hi as int), single) == s@.subrange(lo as int, r as int),
{
    let mut j = hi;
    while j > lo && strips(s[j - 1], white, single)
        invariant
            lo <= j <= hi <= s.len(),
            white ==> trim_end_white(s@.subrange(lo as int, hi as int)) == trim_end_white(s@.subrange(lo as int, j as int)),
            !white ==> trim_end_quotes(s@.subrange(lo as int, hi as int), single) == trim_end_quotes(s@.subrange(lo as int, j as int), single),
        decreases j - lo,
    {
        assert(s@.subrange(lo as int, j as int).drop_last() =~= s@.subrange(lo as int, j - 1));
        j -= 1;
    }
    j
}

/// `s.trim()`, on characters.
pub fn trim_white_chars(s: &Vec<char>) -> (r: Vec<char>)
    ensures
        r@ == trim_white(s@),
{
    let a = skip_front(s, 0, s.len(), true, false);
    let b = skip_back(s, a, s.len(), true, false);
    assert(s@.subrange(0, s.len() as int) =~= s@);
    slice_chars(s, a, b)
}

/// `s.trim_matches(..)` with `"` (and `'` when `single`), on characters.
pub fn trim_quote_chars(s: &Vec<char>, single: bool) -> (r: Vec<char>)
    ensures
        r@ == trim_quotes(s@, single),
{
    let a = skip_front(s, 0, s.len(), false, single);
    let b = skip_back(s, a, s.len(), false, single);
    assert(s@.subrange(0, s.len() as int) =~= s@);
    slice_chars(s, a, b)
}

/// The characters `s[lo..hi]`.
pub fn slice_chars(s: &Vec<char>, lo: usize, hi: usize) -> (r: Vec<char>)
    requires
        lo <= hi <= s.len(),
    ensures
        r@ == s@.subrange(lo as int, hi as int),
{
    let mut r: Vec<char> = Vec::new();
    let mut i = lo;
    while i < hi
        invariant
            lo <= i <= hi <= s.len(),
            r@ == s@.subrange(lo as int, i as int),
        decreases hi - i,
    {
        r.push(s[i]);
        i += 1;
        assert(r@ =~= s@.subrange(lo as int, i as int));
    }
    r
}

/// `words` with the word `cur` appended, if `cur` is not empty.
pub open spec fn flush_word(words: Seq<Seq<char>>, cur: Seq<char>) -> Seq<Seq<char>> {
    if cur.len() > 0 {
        words.push(cur)
    } else {
        words
    }
}

/// Splitting `s` into words, having found the words `words` so far and
/// being inside the partial word `cur`.
pub open spec fn split_white_from(s: Seq<char>, words: Seq<Seq<char>>, cur: Seq<char>) -> Seq<
    Seq<char>,
>
    decreases s.len(),
{
    if s.len() == 0 {
        flush_word(words, cur)
    } else if is_white(s[0]) {
        split_white_from(s.drop_first(), flush_word(words, cur), seq![])
    } else {
        split_white_from(s.drop_first(), words, cur.push(s[0]))
    }
}

/// `str::split_whitespace`: the maximal runs of characters that are not
/// white space, in order.
pub open spec fn split_white(s: Seq<char>) -> Seq<Seq<char>> {
    split_white_from(s, seq![], seq![])
}

/// A word: not empty, and without white space.
pub open spec fn is_word(w: Seq<char>) -> bool {
    w.len() > 0 && forall|i: int| 0 <= i < w.len() ==> !is_white(#[trigger] w[i])
}

/// The texts of a sequence of character vectors.
pub open spec fn char_views(v: Seq<Vec<char>>) -> Seq<Seq<char>> {
    v.map_values(|w: Vec<char>| w@)
}

proof fn lemma_flush_word_words(words: Seq<Seq<char>>, cur: Seq<char>)
    requires
        forall|k: int| 0 <= k < words.len() ==> is_word(#[trigger] words[k]),
        forall|i: int| 0 <= i < cur.len() ==> !is_white(#[trigger] cur[i]),
    ensures
        forall|k: int|
            0 <= k < flush_word(words, cur).len() ==> is_word(#[trigger] flush_word(words, cur)[k]),
{
    if cur.len() > 0 {
        assert forall|k: int| 0 <= k < flush_word(words, cur).len() implies is_word(
            #[trigger] flush_word(words, cur)[k],
        ) by {
            if k < words.len() {
                assert(flush_word(words, cur)[k] == words[k]);
            } else {
                assert(flush_word(words, cur)[k] == cur);
            }
        }
    }
}

proof fn lemma_split_white_from_words(s: Seq<char>, words: Seq<Seq<char>>, cur: Seq<char>)
    requires
        forall|k: int| 0 <= k < words.len() ==> is_word(#[trigger] words[k]),
        forall|i: int| 0 <= i < cur.len() ==> !is_white(#[trigger] cur[i]),
    ensures
        forall|k: int|
            0 <= k < split_white_from(s, words, cur).len() ==> is_word(
                #[trigger] split_white_from(s, words, cur)[k],
            ),
    decreases s.len(),
{
    lemma_flush_word_words(words, cur);
    if s.len() == 0 {
        assert(split_white_from(s, words, cur) == flush_word(words, cur));
    } else if is_white(s[0]) {
        let e: Seq<char> = seq![];
        lemma_split_white_from_words(s.drop_first(), flush_word(words, cur), e);
        assert(split_white_from(s, words, cur) == split_white_from(s.drop_first(), flush_word(words, cur), e));
    } else {
        let c2 = cur.push(s[0]);
        assert forall|i: int| 0 <= i < c2.len() implies !is_white(#[trigger] c2[i]) by {
            if i < cur.len() {
                assert(c2[i] == cur[i]);
            }
        }
        lemma_split_white_from_words(s.drop_first(), words, c2);
        assert(split_white_from(s, words, cur) == split_white_from(s.drop_first(), words, c2));
    }
}

/// Every word that splitting yields is non-empty and holds no white space.
pub proof fn lemma_split_white_words(s: Seq<char>)
    ensures
        forall|k: int| 0 <= k < split_white(s).len() ==> is_word(#[trigger] split_white(s)[k]),
{
    lemma_split_white_from_words(s, seq![], seq![]);
}

/// `s.split_whitespace()`, on characters.
pub fn split_white_chars(s: &Vec<char>) -> (r: Vec<Vec<char>>)
    ensures
        char_views(r@) == split_white(s@),
{
    let mut words: Vec<Vec<char>> = Vec::new();
    let mut cur: Vec<char> = Vec::new();
    let mut i: usize = 0;
    assert(s@.skip(0) =~= s@);
    assert(char_views(words@) =~= seq![]);
    assert(cur@ =~= seq![]);
    while i < s.len()
        invariant
            i <= s.len(),
            split_white(s@) == split_white_from(s@.skip(i as int), char_views(words@), cur@),
        decreases s.len() - i,
    {
        let ghost rest = s@.skip(i as int);
        assert(rest.drop_first() =~= s@.skip(i + 1));
        assert(rest[0] == s@[i as int]);
        if is_white_char(s[i]) {
            let ghost before = char_views(words@);
            let ghost c = cur@;
            if cur.len() > 0 {
                let w = cur;
                words.push(w);
                assert(char_views(words@) =~= before.push(c));
            }
            cur = Vec::new();
            assert(cur@ =~= seq![]);
        } else {
            cur.push(s[i]);
        }
        i += 1;
    }
    let ghost before = char_views(words@);
    let ghost c = cur@;
    if cur.len() > 0 {
        words.push(cur);
        assert(char_views(words@) =~= before.push(c));
    }
    words
}

/// `s` padded with spaces on the right to at least `width` characters, as
/// `format!("{:<width$}", s)` writes it.
pub open spec fn pad_right(s: Seq<char>, width: nat) -> Seq<char> {
    if s.len() >= width {
        s
    } else {
        s + Seq::new((width - s.len()) as nat, |i: int| ' ')
    }
}

/// The texts of a sequence of strings.
pub open spec fn texts(v: Seq<String>) -> Seq<Seq<char>> {
    v.map_values(|s: String| s@)
}

/// An owned copy of `s`.
pub fn owned(s: &str) -> (r: String)
    ensures
        r@ == s@,
{
    String::from_str(s)
}

/// Appends `s` to `out`.
pub fn push_str(out: &mut String, s: &str)
    ensures
        final(out)@ == old(out)@ + s@,
{
    out.append(s);
}

/// Appends `s`, padded with spaces to `width` characters, to `out`.
pub fn push_padded(out: &mut String, s: &str, width: usize)
    ensures
        final(out)@ == old(out)@ + pad_right(s@, width as nat),
{
    let ghost start = out@;
    out.append(s);
    let n = s.unicode_len();
    if n < width {
        let mut k: usize = n;
        while k < width
            invariant
                n <= k <= width,
                n == s@.len(),
                out@ == start + s@ + Seq::new((k - n) as nat, |i: int| ' '),
            decreases width - k,
        {
            push_char(out, ' ');
            k += 1;
            assert(out@ =~= start + s@ + Seq::new((k - n) as nat, |i: int| ' '));
        }
        assert(out@ =~= start + pad_right(s@, width as nat));
    } else {
        assert(out@ =~= start + pad_right(s@, width as nat));
    }
}

/// Whether the characters `a` spell `b`.
pub fn chars_equal(a: &Vec<char>, b: &str) -> (r: bool)
    ensures
        r == (a@ == b@),
{
    let bs = chars_of(b);
    if a.len() != bs.len() {
        return false;
    }
    let mut i: usize = 0;
    while i < a.len()
        invariant
            i <= a.len(),
            a.len() == bs.len(),
            bs@ == b@,
            forall|k: int| 0 <= k < i ==> a@[k] == bs@[k],
        decreases a.len() - i,
    {
        if a[i] != bs[i] {
            return false;
        }
        i += 1;
    }
    assert(a@ =~= bs@);
    true
}

/// The words `ws` joined with single spaces, as `[..].join(" ")` does.
pub open spec fn join_words(ws: Seq<Seq<char>>) -> Seq<char>
    decreases ws.len(),
{
    if ws.len() == 0 {
        seq![]
    } else if ws.len() == 1 {
        ws[0]
    } else {
        join_words(ws.drop_last()) + seq![' '] + ws.last()
    }
}

} // verus!
