//! Text handling shared by the spiders: whitespace, words, trimming, labels.
use vstd::prelude::*;

use crate::text_map::{chars_eq, text_chars};

verus! {

/// Unicode `White_Space`, the set `char::is_whitespace` tests.
pub open spec fn is_space(c: char) -> bool {
    let n = c as int;
    ||| 9 <= n <= 13
    ||| n == 32
    ||| n == 0x85
    ||| n == 0xA0
    ||| n == 0x1680
    ||| 0x2000 <= n <= 0x200A
    ||| n == 0x2028
    ||| n == 0x2029
    ||| n == 0x202F
    ||| n == 0x205F
    ||| n == 0x3000
}

/// Whether `c` is Unicode whitespace.
pub fn char_is_space(c: char) -> (r: bool)
    ensures
        r == is_space(c),
{
    ('\u{9}' <= c && c <= '\u{D}') || c == ' ' || c == '\u{85}' || c == '\u{A0}' || c
        == '\u{1680}' || ('\u{2000}' <= c && c <= '\u{200A}') || c == '\u{2028}' || c
        == '\u{2029}' || c == '\u{202F}' || c == '\u{205F}' || c == '\u{3000}'
}

/// The maximal runs of non-whitespace characters of `s`, in order: what
/// `str::split_whitespace` yields.
pub open spec fn words(s: Seq<char>) -> Seq<Seq<char>>
    decreases s.len(),
{
    if s.len() == 0 {
        Seq::empty()
    } else {
        let init = s.drop_last();
        let c = s.last();
        let w = words(init);
        if is_space(c) {
            w
        } else if init.len() > 0 && !is_space(init.last()) {
            w.update(w.len() - 1, w.last().push(c))
        } else {
            w.push(seq![c])
        }
    }
}

/// `parts` joined with `sep` between neighbours.
pub open spec fn join_with(parts: Seq<Seq<char>>, sep: Seq<char>) -> Seq<char>
    decreases parts.len(),
{
    if parts.len() == 0 {
        Seq::empty()
    } else if parts.len() == 1 {
        parts[0]
    } else {
        join_with(parts.drop_last(), sep) + sep + parts.last()
    }
}

/// The words of `s` separated by single spaces.
pub open spec fn clean(s: Seq<char>) -> Seq<char> {
    join_with(words(s), seq![' '])
}

/// The views of a sequence of character vectors.
pub open spec fn char_rows(v: Seq<Vec<char>>) -> Seq<Seq<char>> {
    v.map_values(|w: Vec<char>| w@)
}

/// The views of a sequence of strings.
pub open spec fn texts(v: Seq<String>) -> Seq<Seq<char>> {
    v.map_values(|w: String| w@)
}

/// Pushing a string pushes its text.
pub proof fn lemma_texts_push(v: Seq<String>, s: String)
    ensures
        texts(v.push(s)) == texts(v).push(s@),
{
    assert(texts(v.push(s)) =~= texts(v).push(s@));
}

proof fn lemma_words_nonempty(s: Seq<char>)
    requires
        s.len() > 0,
        !is_space(s.last()),
    ensures
        words(s).len() > 0,
    decreases s.len(),
{
    let init = s.drop_last();
    if init.len() > 0 && !is_space(init.last()) {
        lemma_words_nonempty(init);
    }
}

/// Every word is non-empty and holds no whitespace.
pub proof fn lemma_words_shape(s: Seq<char>)
    ensures
        forall|i: int| 0 <= i < words(s).len() ==> #[trigger] words(s)[i].len() > 0,
        forall|i: int, j: int|
            0 <= i < words(s).len() && 0 <= j < words(s)[i].len() ==> !is_space(
                #[trigger] words(s)[i][j],
            ),
    decreases s.len(),
{
    if s.len() > 0 {
        let init = s.drop_last();
        lemma_words_shape(init);
        if !is_space(s.last()) && init.len() > 0 && !is_space(init.last()) {
            lemma_words_nonempty(init);
        }
    }
}

/// `String::push`: appends one character. Claimed: the text afterwards is the
/// text before followed by `c`.
#[verifier::external_body]
fn push_char(s: &mut String, c: char)
    ensures
        final(s)@ == old(s)@.push(c),
{
    s.push(c);
}

/// Appends `chars` to `s`.
pub fn push_chars(s: &mut String, chars: &Vec<char>)
    ensures
        final(s)@ == old(s)@ + chars@,
{
    let ghost start = s@;
    for i in 0..chars.len()
        invariant
            s@ == start + chars@.take(i as int),
    {
        push_char(s, chars[i]);
        assert(chars@.take(i + 1) =~= chars@.take(i as int).push(chars@[i as int]));
    }
    assert(chars@.take(chars.len() as int) =~= chars@);
}

/// Appends `more` to `s`.
pub fn append_text(s: &mut String, more: &str)
    ensures
        final(s)@ == old(s)@ + more@,
{
    s.append(more);
}

/// A string holding `first` followed by `second`.
pub fn concat_texts(first: &str, second: &str) -> (r: String)
    ensures
        r@ == first@ + second@,
{
    let mut r = String::new();
    append_text(&mut r, first);
    append_text(&mut r, second);
    assert(r@ =~= first@ + second@);
    r
}

/// A string holding `chars`.
pub fn string_of(chars: &Vec<char>) -> (r: String)
    ensures
        r@ == chars@,
{
    let mut r = String::new();
    push_chars(&mut r, chars);
    assert(r@ =~= chars@);
    r
}

/// The words of `s`, as `str::split_whitespace` yields them.
pub fn split_words(s: &str) -> (r: Vec<Vec<char>>)
    ensures
        char_rows(r@) == words(s@),
{
    let mut out: Vec<Vec<char>> = Vec::new();
    let mut in_word = false;
    for c in it: s.chars()
        invariant
            it.seq() == s@,
            char_rows(out@) == words(it.seq().take(it.index() as int)),
            in_word == (it.index() > 0 && !is_space(it.seq()[it.index() - 1])),
    {
        let ghost i = it.index();
        let ghost prefix = it.seq().take(i as int);
        let ghost next = it.seq().take(i + 1);
        proof {
            assert(next.drop_last() =~= prefix);
            assert(next.last() == c);
            if i > 0 {
                assert(prefix.last() == it.seq()[i - 1]);
            }
        }
        if char_is_space(c) {
            in_word = false;
            proof {
                assert(char_rows(out@) =~= words(next));
            }
        } else if in_word {
            proof {
                lemma_words_nonempty(prefix);
            }
            let mut last = out.pop().unwrap();
            last.push(c);
            out.push(last);
            proof {
                assert(char_rows(out@) =~= words(next));
            }
        } else {
            let mut word: Vec<char> = Vec::new();
            word.push(c);
            out.push(word);
            in_word = true;
            proof {
                assert(word@ =~= seq![c]);
                assert(char_rows(out@) =~= words(next));
            }
        }
    }
    proof {
        assert(s@.take(s@.len() as int) =~= s@);
    }
    out
}

/// `rows` joined with `sep` between neighbours.
pub fn join_rows(rows: &Vec<Vec<char>>, sep: &str) -> (r: String)
    ensures
        r@ == join_with(char_rows(rows@), sep@),
{
    let mut out = String::new();
    let sep_chars = text_chars(sep);
    for i in 0..rows.len()
        invariant
            sep_chars@ == sep@,
            out@ == join_with(char_rows(rows@).take(i as int), sep@),
    {
        let ghost before = char_rows(rows@).take(i as int);
        let ghost after = char_rows(rows@).take(i + 1);
        proof {
            assert(after.drop_last() =~= before);
            assert(after.last() == rows@[i as int]@);
        }
        if i > 0 {
            push_chars(&mut out, &sep_chars);
        }
        push_chars(&mut out, &rows[i]);
        proof {
            if i == 0 {
                assert(out@ =~= after[0]);
            } else {
                assert(out@ =~= join_with(before, sep@) + sep@ + after.last());
            }
        }
    }
    proof {
        assert(char_rows(rows@).take(rows@.len() as int) =~= char_rows(rows@));
    }
    out
}

/// `parts` joined with `sep` between neighbours.
pub fn join_texts(parts: &Vec<String>, sep: &str) -> (r: String)
    ensures
        r@ == join_with(texts(parts@), sep@),
{
    let mut rows: Vec<Vec<char>> = Vec::new();
    for i in 0..parts.len()
        invariant
            char_rows(rows@) == texts(parts@).take(i as int),
    {
        let row = text_chars(parts[i].as_str());
        let ghost before = rows@;
        assert(row@ == texts(parts@)[i as int]);
        rows.push(row);
        proof {
            let a = char_rows(rows@);
            let b = texts(parts@).take(i + 1);
            assert(i < parts@.len());
            assert(texts(parts@).len() == parts@.len());
            assert(char_rows(before).len() == i);
            assert(rows@.len() == i + 1);
            assert(a.len() == b.len());
            assert forall|k: int| 0 <= k < a.len() implies a[k] == b[k] by {
                if k < i {
                    assert(rows@[k] == before[k]);
                    assert(char_rows(before)[k] == texts(parts@).take(i as int)[k]);
                }
            }
            assert(a =~= b);
        }
    }
    proof {
        assert(texts(parts@).take(parts@.len() as int) =~= texts(parts@));
    }
    join_rows(&rows, sep)
}

/// Collapses every run of whitespace to one space and drops it at both ends,
/// as `value.split_whitespace().collect::<Vec<_>>().join(" ")` does.
pub fn clean_text(value: &str) -> (r: String)
    ensures
        r@ == clean(value@),
{
    let words = split_words(value);
    let r = join_rows(&words, " ");
    proof {
        reveal_strlit(" ");
        assert(" "@ =~= seq![' ']);
    }
    r
}

/// Whether `text` begins with `prefix`.
pub fn text_starts_with(text: &str, prefix: &str) -> (r: bool)
    ensures
        r == prefix@.is_prefix_of(text@),
{
    let t = text_chars(text);
    let p = text_chars(prefix);
    if p.len() > t.len() {
        return false;
    }
    let mut i: usize = 0;
    while i < p.len()
        invariant
            p@ == prefix@,
            t@ == text@,
            p.len() <= t.len(),
            0 <= i <= p.len(),
            forall|j: int| 0 <= j < i ==> p@[j] == t@[j],
        decreases p.len() - i,
    {
        if p[i] != t[i] {
            return false;
        }
        i = i + 1;
    }
    assert(p@ =~= t@.subrange(0, p@.len() as int));
    true
}

/// Whether two texts are the same.
pub fn same_text(a: &str, b: &str) -> (r: bool)
    ensures
        r == (a@ == b@),
{
    let x = text_chars(a);
    let y = text_chars(b);
    chars_eq(&x, &y)
}

/// `needle` occurs somewhere in `haystack`.
pub open spec fn occurs_in(needle: Seq<char>, haystack: Seq<char>) -> bool {
    exists|i: int|
        0 <= i && i + needle.len() <= haystack.len() && #[trigger] haystack.subrange(
            i,
            i + needle.len(),
        ) == needle
}

/// Whether `needle` occurs in `haystack`, as `str::contains` decides it.
pub fn chars_contain(haystack: &Vec<char>, needle: &Vec<char>) -> (r: bool)
    ensures
        r == occurs_in(needle@, haystack@),
{
    if needle.len() > haystack.len() {
        return false;
    }
    if needle.len() == 0 {
        assert(haystack@.subrange(0, 0 + needle@.len() as int) =~= needle@);
        return true;
    }
    let last = haystack.len() - needle.len();
    let mut i: usize = 0;
    while i <= last
        invariant
            last == haystack.len() - needle.len(),
            0 < needle.len() <= haystack.len(),
            0 <= i <= last + 1,
            forall|k: int|
                0 <= k < i ==> #[trigger] haystack@.subrange(k, k + needle@.len()) != needle@,
        decreases last + 1 - i,
    {
        let mut j: usize = 0;
        let mut same = true;
        while j < needle.len()
            invariant
                0 <= i <= last,
                last == haystack.len() - needle.len(),
                0 <= j <= needle.len(),
                same ==> forall|m: int| 0 <= m < j ==> haystack@[i + m] == needle@[m],
                !same ==> haystack@.subrange(i as int, i + needle@.len()) != needle@,
            decreases needle.len() - j,
        {
            if haystack[i + j] != needle[j] {
                same = false;
                proof {
                    assert(haystack@.subrange(i as int, i + needle@.len())[j as int]
                        != needle@[j as int]);
                }
            }
            j = j + 1;
        }
        if same {
            assert(haystack@.subrange(i as int, i + needle@.len()) =~= needle@);
            return true;
        }
        i = i + 1;
    }
    proof {
        assert forall|k: int|
            0 <= k && k + needle@.len() <= haystack@.len() implies #[trigger] haystack@.subrange(
            k,
            k + needle@.len(),
        ) != needle@ by {
            assert(k < i);
        }
    }
    false
}

/// Unicode lower case, as `str::to_lowercase` maps a text.
pub uninterp spec fn lowercase(text: Seq<char>) -> Seq<char>;

/// Whether `c` is an ASCII capital letter.
pub open spec fn is_ascii_upper(c: char) -> bool {
    'A' <= c && c <= 'Z'
}

/// Every character of `text` is ASCII.
pub open spec fn ascii_text(text: Seq<char>) -> bool {
    forall|i: int| 0 <= i < text.len() ==> (#[trigger] text[i] as int) < 128
}

/// The ASCII lower case of `c`: a capital letter becomes its small letter,
/// any other character stays.
pub open spec fn ascii_lower(c: char) -> char {
    if is_ascii_upper(c) {
        ((c as int) + 32) as char
    } else {
        c
    }
}

/// The lower case of `text`: for an ASCII text each capital letter made
/// small and every other character kept, else the Unicode mapping.
pub open spec fn lowercase_text(text: Seq<char>) -> Seq<char> {
    if ascii_text(text) {
        text.map_values(|c: char| ascii_lower(c))
    } else {
        lowercase(text)
    }
}

/// `str::to_lowercase`: the Unicode lower-case mapping of `text`. Claimed:
/// the result depends on the text alone (the name [`lowercase`]); beyond
/// that, two facts of the Unicode mapping the documentation refers to: on an
/// ASCII text it turns each capital letter into its small letter and keeps
/// every other character, and no character's lower case is an ASCII capital
/// letter.
#[verifier::external_body]
pub(crate) fn to_lowercase(text: &str) -> (r: String)
    ensures
        !ascii_text(text@) ==> r@ == lowercase(text@),
        ascii_text(text@) ==> r@ == text@.map_values(|c: char| ascii_lower(c)),
        forall|i: int| 0 <= i < r@.len() ==> !is_ascii_upper(#[trigger] r@[i]),
{
    text.to_lowercase()
}

/// Which characters a trim removes.
pub enum TrimSet {
    Whitespace,
    Colon,
    Underscore,
    MoneyPunctuation,
}

/// Whether `c` is one of the characters of `set`.
pub open spec fn trimmed_by(set: TrimSet, c: char) -> bool {
    match set {
        TrimSet::Whitespace => is_space(c),
        TrimSet::Colon => c == ':',
        TrimSet::Underscore => c == '_',
        TrimSet::MoneyPunctuation => c == ',' || c == ';',
    }
}

fn in_trim_set(set: &TrimSet, c: char) -> (r: bool)
    ensures
        r == trimmed_by(*set, c),
{
    match set {
        TrimSet::Whitespace => char_is_space(c),
        TrimSet::Colon => c == ':',
        TrimSet::Underscore => c == '_',
        TrimSet::MoneyPunctuation => c == ',' || c == ';',
    }
}

/// `s` without the characters of `set` at its start.
pub open spec fn strip_start(s: Seq<char>, set: TrimSet) -> Seq<char>
    decreases s.len(),
{
    if s.len() > 0 && trimmed_by(set, s[0]) {
        strip_start(s.drop_first(), set)
    } else {
        s
    }
}

/// `s` without the characters of `set` at its end.
pub open spec fn strip_end(s: Seq<char>, set: TrimSet) -> Seq<char>
    decreases s.len(),
{
    if s.len() > 0 && trimmed_by(set, s.last()) {
        strip_end(s.drop_last(), set)
    } else {
        s
    }
}

/// `s` without the characters of `set` at either end.
pub open spec fn strip_both(s: Seq<char>, set: TrimSet) -> Seq<char> {
    strip_end(strip_start(s, set), set)
}

/// Removes the characters of `set` from the start and/or end of `chars`.
pub fn strip_chars(chars: &Vec<char>, set: TrimSet, start: bool, end: bool) -> (r: Vec<char>)
    ensures
        r@ == (if start && end {
            strip_both(chars@, set)
        } else if start {
            strip_start(chars@, set)
        } else if end {
            strip_end(chars@, set)
        } else {
            chars@
        }),
{
    let mut lo: usize = 0;
    assert(chars@.skip(0) =~= chars@);
    if start {
        while lo < chars.len() && in_trim_set(&set, chars[lo])
            invariant
                0 <= lo <= chars.len(),
                strip_start(chars@, set) == strip_start(chars@.skip(lo as int), set),
            decreases chars.len() - lo,
        {
            proof {
                assert(chars@.skip(lo as int).drop_first() =~= chars@.skip(lo + 1));
            }
            lo = lo + 1;
        }
    }
    let mut hi: usize = chars.len();
    let ghost base = chars@.skip(lo as int);
    proof {
        assert(base =~= chars@.subrange(lo as int, hi as int));
        if start {
            assert(strip_start(chars@, set) == base);
        } else {
            assert(chars@.skip(0) =~= chars@);
        }
    }
    if end {
        while hi > lo && in_trim_set(&set, chars[hi - 1])
            invariant
                lo <= hi <= chars.len(),
                base == chars@.skip(lo as int),
                strip_end(base, set) == strip_end(chars@.subrange(lo as int, hi as int), set),
            decreases hi - lo,
        {
            proof {
                assert(chars@.subrange(lo as int, hi as int).drop_last() =~= chars@.subrange(
                    lo as int,
                    hi - 1,
                ));
            }
            hi = hi - 1;
        }
    }
    let mut out: Vec<char> = Vec::new();
    let mut k: usize = lo;
    while k < hi
        invariant
            lo <= k <= hi <= chars.len(),
            out@ == chars@.subrange(lo as int, k as int),
        decreases hi - k,
    {
        out.push(chars[k]);
        proof {
            assert(out@ =~= chars@.subrange(lo as int, k + 1));
        }
        k = k + 1;
    }
    proof {
        if start {
            assert(strip_start(chars@, set) == base);
        }
    }
    out
}

/// `name` is `text` with only its leading and trailing whitespace removed:
/// `text` is whitespace, then `name`, then whitespace, and `name` neither
/// starts nor ends with whitespace.
pub open spec fn trimmed_from(text: Seq<char>, name: Seq<char>) -> bool {
    exists|a: int, b: int|
        0 <= a <= b <= text.len() && #[trigger] text.subrange(a, b) == name && (forall|i: int|
            0 <= i < a ==> is_space(#[trigger] text[i])) && (forall|i: int|
            b <= i < text.len() ==> is_space(#[trigger] text[i])) && (name.len() > 0 ==> !is_space(
            name[0],
        ) && !is_space(name.last()))
}

proof fn lemma_strip_start_drops_spaces(s: Seq<char>)
    ensures
        exists|k: int|
            0 <= k <= s.len() && strip_start(s, TrimSet::Whitespace) == #[trigger] s.skip(k) && (forall|i: int|
                0 <= i < k ==> is_space(#[trigger] s[i])),
    decreases s.len(),
{
    if s.len() > 0 && is_space(s[0]) {
        let t = s.drop_first();
        lemma_strip_start_drops_spaces(t);
        let k = choose|k: int|
            0 <= k <= t.len() && strip_start(t, TrimSet::Whitespace) == #[trigger] t.skip(k) && (forall|i: int|
                0 <= i < k ==> is_space(#[trigger] t[i]));
        assert(t.skip(k) =~= s.skip(k + 1));
        assert forall|i: int| 0 <= i < k + 1 implies is_space(#[trigger] s[i]) by {
            if i > 0 {
                assert(s[i] == t[i - 1]);
            }
        }
    } else {
        assert(s.skip(0) =~= s);
    }
}

proof fn lemma_strip_end_drops_spaces(s: Seq<char>)
    ensures
        exists|k: int|
            0 <= k <= s.len() && strip_end(s, TrimSet::Whitespace) == #[trigger] s.take(k) && (forall|i: int|
                k <= i < s.len() ==> is_space(#[trigger] s[i])),
    decreases s.len(),
{
    if s.len() > 0 && is_space(s.last()) {
        let t = s.drop_last();
        lemma_strip_end_drops_spaces(t);
        let k = choose|k: int|
            0 <= k <= t.len() && strip_end(t, TrimSet::Whitespace) == #[trigger] t.take(k) && (forall|i: int|
                k <= i < t.len() ==> is_space(#[trigger] t[i]));
        assert(t.take(k) =~= s.take(k));
        assert forall|i: int| k <= i < s.len() implies is_space(#[trigger] s[i]) by {
            if i < s.len() - 1 {
                assert(s[i] == t[i]);
            }
        }
    } else {
        assert(s.take(s.len() as int) =~= s);
    }
}

/// Trimming whitespace from both ends removes exactly the leading and the
/// trailing whitespace, and leaves nothing just when the text is blank.
pub proof fn lemma_trim_keeps_the_middle(text: Seq<char>)
    ensures
        trimmed_from(text, strip_both(text, TrimSet::Whitespace)),
        strip_both(text, TrimSet::Whitespace).len() == 0 <==> blank(text),
{
    let front = strip_start(text, TrimSet::Whitespace);
    let r = strip_end(front, TrimSet::Whitespace);
    lemma_strip_start_drops_spaces(text);
    lemma_strip_end_drops_spaces(front);
    lemma_strip_start_is_suffix(text, TrimSet::Whitespace);
    lemma_strip_end_is_prefix(front, TrimSet::Whitespace);
    let a = choose|k: int|
        0 <= k <= text.len() && front == #[trigger] text.skip(k) && (forall|i: int|
            0 <= i < k ==> is_space(#[trigger] text[i]));
    let b = choose|k: int|
        0 <= k <= front.len() && r == #[trigger] front.take(k) && (forall|i: int|
            k <= i < front.len() ==> is_space(#[trigger] front[i]));
    assert(r =~= text.subrange(a, a + b));
    assert forall|i: int| a + b <= i < text.len() implies is_space(#[trigger] text[i]) by {
        assert(text[i] == front[i - a]);
    }
    if r.len() > 0 {
        assert(r[0] == front[0]);
    }
    assert(trimmed_from(text, r));
    if r.len() == 0 {
        assert forall|i: int| 0 <= i < text.len() implies is_space(#[trigger] text[i]) by {
            if i >= a {
                assert(text[i] == front[i - a]);
            }
        }
    } else {
        assert(r[0] == text[a]);
    }
}

/// Whether `c` is an ASCII letter or digit.
pub open spec fn is_ascii_alnum(c: char) -> bool {
    ('a' <= c && c <= 'z') || ('A' <= c && c <= 'Z') || ('0' <= c && c <= '9')
}

/// `s` with every ASCII letter and digit kept and every run of other
/// characters turned into one underscore.
pub open spec fn collapse_to_underscores(s: Seq<char>) -> Seq<char>
    decreases s.len(),
{
    if s.len() == 0 {
        Seq::empty()
    } else {
        let r = collapse_to_underscores(s.drop_last());
        let c = s.last();
        if is_ascii_alnum(c) {
            r.push(c)
        } else if r.len() > 0 && r.last() == '_' {
            r
        } else {
            r.push('_')
        }
    }
}

/// The key a legacy detail label is filed under.
pub open spec fn normalized_label(label: Seq<char>) -> Seq<char> {
    let trimmed = strip_both(strip_end(clean(label), TrimSet::Colon), TrimSet::Whitespace);
    key_of(lowercase_text(trimmed))
}

/// The key a lower-cased label is filed under: every run of characters that
/// are not ASCII letters or digits made one underscore, none kept at the ends.
pub open spec fn key_of(lowered: Seq<char>) -> Seq<char> {
    strip_both(collapse_to_underscores(lowered), TrimSet::Underscore)
}

/// Turns a label such as `"Best Cruise Speed:"` into a key such as
/// `"best_cruise_speed"`.
pub fn normalize_label(label: &str) -> (r: String)
    ensures
        r@ == normalized_label(label@),
        is_key(r@),
        normalized_label(r@) == r@,
{
    let cleaned = clean_text(label);
    let cleaned_chars = text_chars(cleaned.as_str());
    let no_colon = strip_chars(&cleaned_chars, TrimSet::Colon, false, true);
    let trimmed = strip_chars(&no_colon, TrimSet::Whitespace, true, true);
    let trimmed_text = string_of(&trimmed);
    let lower = to_lowercase(trimmed_text.as_str());
    let r = key_from_lowered(lower.as_str());
    proof {
        lemma_normalized_from_lowered_is_key(label@);
        lemma_keys_normalize_to_themselves(r@);
    }
    r
}

/// Turns a lower-cased label into its key: letters and digits kept, every
/// run of other characters one underscore, no underscore at either end.
pub fn key_from_lowered(lowered: &str) -> (r: String)
    ensures
        r@ == key_of(lowered@),
{
    let mut output: Vec<char> = Vec::new();
    let mut previous_was_underscore = false;
    for ch in it: lowered.chars()
        invariant
            it.seq() == lowered@,
            output@ == collapse_to_underscores(it.seq().take(it.index() as int)),
            previous_was_underscore == (output@.len() > 0 && output@.last() == '_'),
    {
        let ghost i = it.index();
        proof {
            assert(it.seq().take(i + 1).drop_last() =~= it.seq().take(i as int));
            assert(it.seq().take(i + 1).last() == ch);
        }
        if ('a' <= ch && ch <= 'z') || ('A' <= ch && ch <= 'Z') || ('0' <= ch && ch <= '9') {
            output.push(ch);
            previous_was_underscore = false;
        } else if !previous_was_underscore {
            output.push('_');
            previous_was_underscore = true;
        }
    }
    proof {
        assert(lowered@.take(lowered@.len() as int) =~= lowered@);
    }
    let result = strip_chars(&output, TrimSet::Underscore, true, true);
    string_of(&result)
}

/// `s` is made of ASCII letters, digits and underscores, with no underscore
/// at either end and none next to another.
pub open spec fn key_shaped(s: Seq<char>) -> bool {
    &&& forall|i: int| 0 <= i < s.len() ==> is_ascii_alnum(#[trigger] s[i]) || s[i] == '_'
    &&& s.len() > 0 ==> s[0] != '_' && s.last() != '_'
    &&& forall|i: int| 0 <= i < s.len() - 1 ==> !(#[trigger] s[i] == '_' && s[i + 1] == '_')
}

proof fn lemma_collapsed_shape(s: Seq<char>)
    ensures
        forall|i: int|
            0 <= i < collapse_to_underscores(s).len() ==> is_ascii_alnum(
                #[trigger] collapse_to_underscores(s)[i],
            ) || collapse_to_underscores(s)[i] == '_',
        forall|i: int|
            0 <= i < collapse_to_underscores(s).len() - 1 ==> !(
            #[trigger] collapse_to_underscores(s)[i] == '_' && collapse_to_underscores(s)[i + 1] == '_'),
    decreases s.len(),
{
    if s.len() > 0 {
        let r = collapse_to_underscores(s.drop_last());
        let out = collapse_to_underscores(s);
        lemma_collapsed_shape(s.drop_last());
        assert forall|i: int| 0 <= i < r.len() implies out[i] == r[i] by {}
        assert forall|i: int| 0 <= i < out.len() implies is_ascii_alnum(#[trigger] out[i]) || out[i] == '_' by {
            if i < r.len() {
                assert(out[i] == r[i]);
            }
        }
        assert forall|i: int| 0 <= i < out.len() - 1 implies !(#[trigger] out[i] == '_' && out[i + 1] == '_') by {
            if i + 1 < r.len() {
                assert(out[i] == r[i]);
                assert(out[i + 1] == r[i + 1]);
            } else if i + 1 == r.len() {
                assert(out[i] == r[i]);
            }
        }
    }
}

proof fn lemma_strip_start_is_suffix(s: Seq<char>, set: TrimSet)
    ensures
        exists|k: int| 0 <= k <= s.len() && strip_start(s, set) == s.skip(k),
        strip_start(s, set).len() > 0 ==> !trimmed_by(set, strip_start(s, set)[0]),
    decreases s.len(),
{
    if s.len() > 0 && trimmed_by(set, s[0]) {
        lemma_strip_start_is_suffix(s.drop_first(), set);
        let k = choose|k: int|
            0 <= k <= s.drop_first().len() && strip_start(s.drop_first(), set) == s.drop_first().skip(k);
        assert(s.drop_first().skip(k) =~= s.skip(k + 1));
    } else {
        assert(s.skip(0) =~= s);
    }
}

proof fn lemma_strip_end_is_prefix(s: Seq<char>, set: TrimSet)
    ensures
        exists|k: int| 0 <= k <= s.len() && strip_end(s, set) == s.take(k),
        strip_end(s, set).len() > 0 ==> !trimmed_by(set, strip_end(s, set).last()),
    decreases s.len(),
{
    if s.len() > 0 && trimmed_by(set, s.last()) {
        lemma_strip_end_is_prefix(s.drop_last(), set);
        let k = choose|k: int|
            0 <= k <= s.drop_last().len() && strip_end(s.drop_last(), set) == s.drop_last().take(k);
        assert(s.drop_last().take(k) =~= s.take(k));
    } else {
        assert(s.take(s.len() as int) =~= s);
    }
}

/// Every key a label is normalized to is made of ASCII letters, digits and
/// single underscores, with no underscore at either end.
pub proof fn lemma_normalized_labels_are_key_shaped(label: Seq<char>)
    ensures
        key_shaped(normalized_label(label)),
{
    let trimmed = strip_both(strip_end(clean(label), TrimSet::Colon), TrimSet::Whitespace);
    let c = collapse_to_underscores(lowercase_text(trimmed));
    let front = strip_start(c, TrimSet::Underscore);
    let r = strip_end(front, TrimSet::Underscore);
    lemma_collapsed_shape(lowercase_text(trimmed));
    lemma_strip_start_is_suffix(c, TrimSet::Underscore);
    lemma_strip_end_is_prefix(front, TrimSet::Underscore);
    let a = choose|k: int| 0 <= k <= c.len() && front == c.skip(k);
    let b = choose|k: int| 0 <= k <= front.len() && r == front.take(k);
    assert forall|i: int| 0 <= i < r.len() implies is_ascii_alnum(#[trigger] r[i]) || r[i] == '_' by {
        assert(r[i] == c[a + i]);
    }
    assert forall|i: int| 0 <= i < r.len() - 1 implies !(#[trigger] r[i] == '_' && r[i + 1] == '_') by {
        assert(r[i] == c[a + i]);
        assert(r[i + 1] == c[a + i + 1]);
    }
    if r.len() > 0 {
        assert(r[0] == front[0]);
    }
}

proof fn lemma_words_extend(a: Seq<char>, w: Seq<char>)
    requires
        w.len() > 0,
        forall|i: int| 0 <= i < w.len() ==> !is_space(#[trigger] w[i]),
        a.len() == 0 || is_space(a.last()),
    ensures
        words(a + w) == words(a).push(w),
    decreases w.len(),
{
    if w.len() == 1 {
        assert((a + w).drop_last() =~= a);
        assert(w =~= seq![w[0]]);
    } else {
        let w2 = w.drop_last();
        lemma_words_extend(a, w2);
        assert((a + w).drop_last() =~= a + w2);
        assert((a + w2).last() == w2.last());
        assert(w2.push(w.last()) =~= w);
        let ws = words(a).push(w2);
        assert(ws.update(ws.len() - 1, ws.last().push(w.last())) =~= words(a).push(w));
    }
}

proof fn lemma_words_of_join(parts: Seq<Seq<char>>)
    requires
        forall|i: int| 0 <= i < parts.len() ==> #[trigger] parts[i].len() > 0,
        forall|i: int, j: int|
            0 <= i < parts.len() && 0 <= j < parts[i].len() ==> !is_space(#[trigger] parts[i][j]),
    ensures
        words(join_with(parts, seq![' '])) == parts,
    decreases parts.len(),
{
    if parts.len() == 1 {
        let w = parts[0];
        assert forall|j: int| 0 <= j < w.len() implies !is_space(#[trigger] w[j]) by {
            assert(parts[0][j] == w[j]);
        }
        lemma_words_extend(Seq::empty(), w);
        assert(Seq::<char>::empty() + w =~= w);
        assert(seq![w] =~= parts);
    } else if parts.len() > 1 {
        let init = parts.drop_last();
        let w = parts.last();
        assert forall|j: int| 0 <= j < w.len() implies !is_space(#[trigger] w[j]) by {
            assert(parts[parts.len() - 1][j] == w[j]);
        }
        assert forall|i: int, j: int| 0 <= i < init.len() && 0 <= j < init[i].len() implies !is_space(
            #[trigger] init[i][j],
        ) by {
            assert(init[i] == parts[i]);
        }
        assert forall|i: int| 0 <= i < init.len() implies #[trigger] init[i].len() > 0 by {
            assert(init[i] == parts[i]);
        }
        lemma_words_of_join(init);
        let j = join_with(init, seq![' ']);
        let a = j + seq![' '];
        assert(a.drop_last() =~= j);
        assert(words(a) == words(j));
        lemma_words_extend(a, w);
        assert(init.push(w) =~= parts);
    }
}

/// `s` has no whitespace at either end, no two whitespace characters side by
/// side, and no whitespace but plain spaces.
pub open spec fn tidy(s: Seq<char>) -> bool {
    &&& s.len() > 0 ==> !is_space(s[0]) && !is_space(s.last())
    &&& forall|i: int| 0 <= i < s.len() - 1 ==> !(is_space(#[trigger] s[i]) && is_space(s[i + 1]))
    &&& forall|i: int| 0 <= i < s.len() && is_space(#[trigger] s[i]) ==> s[i] == ' '
}

proof fn lemma_join_is_tidy(parts: Seq<Seq<char>>)
    requires
        forall|i: int| 0 <= i < parts.len() ==> #[trigger] parts[i].len() > 0,
        forall|i: int, j: int|
            0 <= i < parts.len() && 0 <= j < parts[i].len() ==> !is_space(#[trigger] parts[i][j]),
    ensures
        tidy(join_with(parts, seq![' '])),
        parts.len() > 0 ==> join_with(parts, seq![' ']).len() > 0,
    decreases parts.len(),
{
    if parts.len() == 1 {
        let w = parts[0];
        assert forall|j: int| 0 <= j < w.len() implies !is_space(#[trigger] w[j]) by {
            assert(parts[0][j] == w[j]);
        }
    } else if parts.len() > 1 {
        let init = parts.drop_last();
        let w = parts.last();
        assert forall|j: int| 0 <= j < w.len() implies !is_space(#[trigger] w[j]) by {
            assert(parts[parts.len() - 1][j] == w[j]);
        }
        assert forall|i: int, j: int| 0 <= i < init.len() && 0 <= j < init[i].len() implies !is_space(
            #[trigger] init[i][j],
        ) by {
            assert(init[i] == parts[i]);
        }
        assert forall|i: int| 0 <= i < init.len() implies #[trigger] init[i].len() > 0 by {
            assert(init[i] == parts[i]);
        }
        lemma_join_is_tidy(init);
        let j = join_with(init, seq![' ']);
        let r = join_with(parts, seq![' ']);
        let n = j.len() as int;
        assert(r == j + seq![' '] + w);
        assert forall|k: int| 0 <= k < r.len() implies (k < n ==> r[k] == j[k]) && (k == n ==> r[k]
            == ' ') && (k > n ==> r[k] == w[k - n - 1]) by {}
        assert forall|k: int| 0 <= k < r.len() - 1 implies !(is_space(#[trigger] r[k]) && is_space(
            r[k + 1],
        )) by {
            if k < n - 1 {
                assert(r[k] == j[k] && r[k + 1] == j[k + 1]);
            } else if k == n - 1 {
                assert(r[k] == j.last());
            } else if k == n {
                assert(r[k + 1] == w[0]);
            } else {
                assert(r[k] == w[k - n - 1]);
            }
        }
        assert forall|k: int| 0 <= k < r.len() && is_space(#[trigger] r[k]) implies r[k] == ' ' by {
            if k < n {
                assert(r[k] == j[k]);
            } else if k > n {
                assert(r[k] == w[k - n - 1]);
            }
        }
        assert(r[0] == j[0]);
        assert(r.last() == w.last());
    }
}

/// Cleaning a text leaves no whitespace at either end, no two whitespace
/// characters side by side and only plain spaces between words; it keeps the
/// words as they were, and cleaning the result again changes nothing.
pub proof fn lemma_clean_is_tidy(s: Seq<char>)
    ensures
        tidy(clean(s)),
        words(clean(s)) == words(s),
        clean(clean(s)) == clean(s),
{
    lemma_words_shape(s);
    lemma_words_of_join(words(s));
    lemma_join_is_tidy(words(s));
}

/// Whether `c` may stand in a key: a lower-case ASCII letter, a digit or an
/// underscore.
pub open spec fn is_key_char(c: char) -> bool {
    ('a' <= c && c <= 'z') || ('0' <= c && c <= '9') || c == '_'
}

/// `s` is a section key: lower-case ASCII letters, digits and single
/// underscores, with no underscore at either end.
pub open spec fn is_key(s: Seq<char>) -> bool {
    &&& key_shaped(s)
    &&& forall|i: int| 0 <= i < s.len() ==> is_key_char(#[trigger] s[i])
}

proof fn lemma_collapse_keeps_keys(s: Seq<char>)
    requires
        forall|i: int| 0 <= i < s.len() ==> is_key_char(#[trigger] s[i]),
        forall|i: int| 0 <= i < s.len() - 1 ==> !(#[trigger] s[i] == '_' && s[i + 1] == '_'),
    ensures
        collapse_to_underscores(s) == s,
    decreases s.len(),
{
    if s.len() > 0 {
        let init = s.drop_last();
        assert forall|i: int| 0 <= i < init.len() implies is_key_char(#[trigger] init[i]) by {
            assert(init[i] == s[i]);
        }
        assert forall|i: int| 0 <= i < init.len() - 1 implies !(#[trigger] init[i] == '_' && init[i + 1] == '_') by {
            assert(init[i] == s[i] && init[i + 1] == s[i + 1]);
        }
        lemma_collapse_keeps_keys(init);
        if init.len() > 0 {
            assert(init.last() == s[s.len() - 2]);
        }
        assert(init.push(s.last()) =~= s);
    }
}

proof fn lemma_collapse_draws_from(s: Seq<char>)
    ensures
        forall|i: int|
            0 <= i < collapse_to_underscores(s).len() ==> #[trigger] collapse_to_underscores(s)[i] == '_'
                || s.contains(collapse_to_underscores(s)[i]),
    decreases s.len(),
{
    if s.len() > 0 {
        let init = s.drop_last();
        lemma_collapse_draws_from(init);
        let r = collapse_to_underscores(init);
        let out = collapse_to_underscores(s);
        assert forall|i: int| 0 <= i < out.len() implies #[trigger] out[i] == '_' || s.contains(out[i]) by {
            if i < r.len() {
                assert(out[i] == r[i]);
                if r[i] != '_' {
                    let k = choose|k: int| 0 <= k < init.len() && init[k] == r[i];
                    assert(s[k] == r[i]);
                }
            } else {
                assert(s[s.len() - 1] == s.last());
            }
        }
    }
}

/// A key normalizes to itself, so normalizing twice is normalizing once.
pub proof fn lemma_keys_normalize_to_themselves(k: Seq<char>)
    requires
        is_key(k),
    ensures
        normalized_label(k) == k,
{
    assert forall|i: int| 0 <= i < k.len() implies !is_space(#[trigger] k[i]) && k[i] != ':' by {
        assert(is_key_char(k[i]));
    }
    if k.len() > 0 {
        lemma_words_extend(Seq::empty(), k);
        assert(Seq::<char>::empty() + k =~= k);
        assert(words(k) =~= seq![k]);
    } else {
        assert(words(k) =~= Seq::<Seq<char>>::empty());
    }
    assert(clean(k) == k);
    assert(strip_end(k, TrimSet::Colon) == k);
    assert(strip_start(k, TrimSet::Whitespace) == k);
    assert(strip_end(k, TrimSet::Whitespace) == k);
    assert(ascii_text(k)) by {
        assert forall|i: int| 0 <= i < k.len() implies (#[trigger] k[i] as int) < 128 by {
            assert(is_key_char(k[i]));
        }
    }
    assert(k.map_values(|c: char| ascii_lower(c)) =~= k) by {
        assert forall|i: int| 0 <= i < k.len() implies #[trigger] ascii_lower(k[i]) == k[i] by {
            assert(is_key_char(k[i]));
        }
    }
    lemma_collapse_keeps_keys(k);
    assert(strip_start(k, TrimSet::Underscore) == k);
    assert(strip_end(k, TrimSet::Underscore) == k);
}

/// The result of [`normalize_label`] is a key: given a lower-cased text with
/// no ASCII capital, the key drawn from it holds only lower-case letters,
/// digits and single underscores.
proof fn lemma_normalized_from_lowered_is_key(label: Seq<char>)
    requires
        ({
            let trimmed = strip_both(strip_end(clean(label), TrimSet::Colon), TrimSet::Whitespace);
            forall|i: int|
                0 <= i < lowercase_text(trimmed).len() ==> !is_ascii_upper(#[trigger] lowercase_text(trimmed)[i])
        }),
    ensures
        is_key(normalized_label(label)),
{
    let trimmed = strip_both(strip_end(clean(label), TrimSet::Colon), TrimSet::Whitespace);
    let low = lowercase_text(trimmed);
    let c = collapse_to_underscores(low);
    let front = strip_start(c, TrimSet::Underscore);
    let r = strip_end(front, TrimSet::Underscore);
    lemma_normalized_labels_are_key_shaped(label);
    lemma_collapsed_shape(low);
    lemma_collapse_draws_from(low);
    lemma_strip_start_is_suffix(c, TrimSet::Underscore);
    lemma_strip_end_is_prefix(front, TrimSet::Underscore);
    let a = choose|k: int| 0 <= k <= c.len() && front == c.skip(k);
    let b = choose|k: int| 0 <= k <= front.len() && r == front.take(k);
    assert forall|i: int| 0 <= i < r.len() implies is_key_char(#[trigger] r[i]) by {
        assert(r[i] == c[a + i]);
        if c[a + i] != '_' {
            assert(is_ascii_alnum(c[a + i]));
            let q = choose|q: int| 0 <= q < low.len() && low[q] == c[a + i];
            assert(!is_ascii_upper(low[q]));
        }
    }
}

/// Every character of `s` is whitespace: `s.trim().is_empty()`.
pub open spec fn blank(s: Seq<char>) -> bool {
    forall|i: int| 0 <= i < s.len() ==> is_space(#[trigger] s[i])
}

/// Whether `text` is empty once its whitespace is trimmed.
pub fn is_blank(text: &str) -> (r: bool)
    ensures
        r == blank(text@),
{
    for c in it: text.chars()
        invariant
            it.seq() == text@,
            forall|j: int| 0 <= j < it.index() ==> is_space(#[trigger] it.seq()[j]),
    {
        if !char_is_space(c) {
            return false;
        }
    }
    true
}

/// The first word that starts with a dollar sign.
pub open spec fn first_dollar_word(ws: Seq<Seq<char>>) -> Option<Seq<char>>
    decreases ws.len(),
{
    if ws.len() == 0 {
        None
    } else if ws[0].len() > 0 && ws[0][0] == '$' {
        Some(ws[0])
    } else {
        first_dollar_word(ws.drop_first())
    }
}

/// The first whitespace-separated word of `text` that starts with `$`, without
/// the commas and semicolons at its ends.
pub open spec fn money_value(text: Seq<char>) -> Option<Seq<char>> {
    match first_dollar_word(words(text)) {
        Some(w) => Some(strip_both(w, TrimSet::MoneyPunctuation)),
        None => None,
    }
}

/// Finds the first `$` amount in a text, such as `"$39,637"` in
/// `"Estimated value: $39,637; updated daily"`.
pub fn extract_first_money_value(text: &str) -> (r: Option<String>)
    ensures
        match r {
            Some(v) => money_value(text@) == Some(v@),
            None => money_value(text@) is None,
        },
{
    let ws = split_words(text);
    let ghost all = char_rows(ws@);
    let mut i: usize = 0;
    proof {
        assert(all.skip(0) =~= all);
    }
    while i < ws.len()
        invariant
            all == char_rows(ws@),
            all == words(text@),
            0 <= i <= ws.len(),
            first_dollar_word(all) == first_dollar_word(all.skip(i as int)),
        decreases ws.len() - i,
    {
        let word = &ws[i];
        proof {
            assert(all.skip(i as int)[0] == word@);
        }
        if word.len() > 0 && word[0] == '$' {
            let trimmed = strip_chars(word, TrimSet::MoneyPunctuation, true, true);
            return Some(string_of(&trimmed));
        }
        proof {
            assert(all.skip(i as int).drop_first() =~= all.skip(i + 1));
        }
        i = i + 1;
    }
    proof {
        assert(all.skip(i as int).len() == 0);
    }
    None
}

/// Whether `c` is an ASCII digit.
pub open spec fn is_digit(c: char) -> bool {
    '0' <= c && c <= '9'
}

/// The number written by the decimal digits `d`.
pub open spec fn digits_value(d: Seq<char>) -> int
    decreases d.len(),
{
    if d.len() == 0 {
        0
    } else {
        digits_value(d.drop_last()) * 10 + (d.last() as int - '0' as int)
    }
}

/// `s` without one leading `+`.
pub open spec fn unsigned_digits(s: Seq<char>) -> Seq<char> {
    if s.len() > 0 && s[0] == '+' {
        s.drop_first()
    } else {
        s
    }
}

/// Every character of `d` is a decimal digit.
pub open spec fn all_digits(d: Seq<char>) -> bool {
    forall|i: int| 0 <= i < d.len() ==> is_digit(#[trigger] d[i])
}

/// What `u64::from_str` makes of `s`: an optional `+`, then at least one
/// decimal digit and nothing else, worth at most `u64::MAX`.
pub open spec fn parsed_u64(s: Seq<char>) -> Option<u64> {
    let d = unsigned_digits(s);
    if d.len() > 0 && all_digits(d) && digits_value(d) <= u64::MAX {
        Some(digits_value(d) as u64)
    } else {
        None
    }
}

proof fn lemma_digits_value_grows(d: Seq<char>, k: int)
    requires
        0 <= k <= d.len(),
        forall|i: int| 0 <= i < d.len() ==> is_digit(#[trigger] d[i]),
    ensures
        digits_value(d.take(k)) <= digits_value(d),
        0 <= digits_value(d.take(k)),
    decreases d.len() - k,
{
    if k < d.len() {
        lemma_digits_value_grows(d, k + 1);
        assert(d.take(k + 1).drop_last() =~= d.take(k));
        assert(is_digit(d[k]));
    } else {
        assert(d.take(k) =~= d);
        lemma_digits_value_nonneg(d);
    }
}

proof fn lemma_digits_value_nonneg(d: Seq<char>)
    requires
        forall|i: int| 0 <= i < d.len() ==> is_digit(#[trigger] d[i]),
    ensures
        0 <= digits_value(d),
    decreases d.len(),
{
    if d.len() > 0 {
        assert(is_digit(d[d.len() - 1]));
        lemma_digits_value_nonneg(d.drop_last());
    }
}

fn digit_value(c: char) -> (d: u64)
    requires
        is_digit(c),
    ensures
        d == c as int - '0' as int,
{
    match c {
        '0' => 0,
        '1' => 1,
        '2' => 2,
        '3' => 3,
        '4' => 4,
        '5' => 5,
        '6' => 6,
        '7' => 7,
        '8' => 8,
        _ => 9,
    }
}

/// Reads a decimal `u64` as `str::parse::<u64>` does.
pub fn parse_u64(text: &str) -> (r: Option<u64>)
    ensures
        r == parsed_u64(text@),
{
    let chars = text_chars(text);
    let mut start: usize = 0;
    if chars.len() > 0 && chars[0] == '+' {
        start = 1;
    }
    let ghost d = chars@.skip(start as int);
    proof {
        if start == 1 {
            assert(d =~= chars@.drop_first());
        } else {
            assert(d =~= chars@);
        }
        assert(d == unsigned_digits(text@));
    }
    if start >= chars.len() {
        return None;
    }
    let mut k: usize = start;
    while k < chars.len()
        invariant
            start <= k <= chars.len(),
            chars@ == text@,
            d == chars@.skip(start as int),
            d == unsigned_digits(text@),
            forall|i: int| 0 <= i < k - start ==> is_digit(#[trigger] d[i]),
        decreases chars.len() - k,
    {
        if !('0' <= chars[k] && chars[k] <= '9') {
            proof {
                assert(!is_digit(d[k - start]));
                assert(!all_digits(d));
            }
            return None;
        }
        k = k + 1;
    }
    let mut value: u64 = 0;
    let mut k: usize = start;
    while k < chars.len()
        invariant
            start <= k <= chars.len(),
            chars@ == text@,
            d == chars@.skip(start as int),
            d == unsigned_digits(text@),
            forall|i: int| 0 <= i < d.len() ==> is_digit(#[trigger] d[i]),
            value == digits_value(d.take(k - start)),
        decreases chars.len() - k,
    {
        assert(d[k - start] == chars@[k as int]);
        let digit = digit_value(chars[k]);
        proof {
            assert(d.take(k + 1 - start).drop_last() =~= d.take(k - start));
            assert(d.take(k + 1 - start).last() == chars@[k as int]);
            assert(is_digit(d[k - start]));
        }
        match value.checked_mul(10) {
            Some(tens) => match tens.checked_add(digit) {
                Some(next) => {
                    value = next;
                },
                None => {
                    proof {
                        lemma_digits_value_grows(d, k + 1 - start);
                        assert(digits_value(d) > u64::MAX);
                    }
                    return None;
                },
            },
            None => {
                proof {
                    lemma_digits_value_grows(d, k + 1 - start);
                    lemma_digits_value_nonneg(d.take(k - start));
                    assert(digits_value(d.take(k + 1 - start)) >= value * 10);
                    assert(digits_value(d) > u64::MAX);
                }
                return None;
            },
        }
        k = k + 1;
    }
    proof {
        assert(d.take(k - start) =~= d);
    }
    Some(value)
}

/// The decimal digit character for `d` (below ten).
pub open spec fn digit_char(d: int) -> char {
    (d + 48) as char
}

/// The decimal writing of `n`, without leading zeros.
pub open spec fn decimal(n: nat) -> Seq<char>
    decreases n,
{
    if n < 10 {
        seq![digit_char(n as int)]
    } else {
        decimal(n / 10).push(digit_char((n % 10) as int))
    }
}

/// Appends the decimal writing of `n` to `out`.
pub fn push_decimal(out: &mut String, n: u128)
    ensures
        final(out)@ == old(out)@ + decimal(n as nat),
    decreases n,
{
    if n >= 10 {
        push_decimal(out, n / 10);
    }
    let d = (n % 10) as u8;
    let c = (48u8 + d) as char;
    proof {
        assert(c == digit_char((n % 10) as int));
    }
    push_char(out, c);
    proof {
        if n < 10 {
            assert(old(out)@ + decimal(n as nat) =~= old(out)@.push(c));
        }
    }
}

} // verus!
