//! Text as sequences of characters: the small vocabulary every other module is specified in.

use vstd::prelude::*;

verus! {

/// `String::push` appends the one character.
pub assume_specification[ String::push ](s: &mut String, c: char)
    ensures
        final(s)@ == old(s)@.push(c),
;

/// The views of a list of strings.
pub open spec fn texts(list: Seq<String>) -> Seq<Seq<char>> {
    list.map_values(|t: String| t@)
}

/// The view of an optional string.
pub open spec fn opt_text(value: Option<String>) -> Option<Seq<char>> {
    match value {
        Some(t) => Some(t@),
        None => None,
    }
}

// ---------------------------------------------------------------------------------------------
// Conversions
// ---------------------------------------------------------------------------------------------

/// The characters of `s`.
pub fn chars_of(s: &str) -> (r: Vec<char>)
    ensures
        r@ == s@,
{
    let mut out: Vec<char> = Vec::new();
    for c in it: s.chars()
        invariant
            out@ == it.seq().take(it.index() as int),
            it.seq() == s@,
    {
        out.push(c);
    }
    out
}

/// The text made of the characters `from..to` of `chars`.
pub fn text_range(chars: &Vec<char>, from: usize, to: usize) -> (r: String)
    requires
        from <= to <= chars@.len(),
    ensures
        r@ == chars@.subrange(from as int, to as int),
{
    let mut out: String = String::new();
    let mut i: usize = from;
    while i < to
        invariant
            from <= i <= to <= chars@.len(),
            out@ == chars@.subrange(from as int, i as int),
        decreases to - i,
    {
        out.push(chars[i]);
        i = i + 1;
        assert(chars@.subrange(from as int, i as int) =~= chars@.subrange(
            from as int,
            i - 1,
        ).push(chars@[i - 1]));
    }
    out
}

/// The text made of all of `chars`.
pub fn text_of(chars: &Vec<char>) -> (r: String)
    ensures
        r@ == chars@,
{
    let r: String = text_range(chars, 0, chars.len());
    assert(chars@.subrange(0, chars@.len() as int) =~= chars@);
    r
}

/// The text followed by `more`.
pub fn cat(s: String, more: &str) -> (r: String)
    ensures
        r@ == s@ + more@,
{
    let mut out: String = s;
    out.append(more);
    out
}

/// Whether two texts hold the same characters.
pub fn same(a: &str, b: &str) -> (r: bool)
    ensures
        r == (a@ == b@),
{
    a.to_owned() == b.to_owned()
}

/// A copy of a list of strings.
pub fn clone_texts(list: &Vec<String>) -> (r: Vec<String>)
    ensures
        texts(r@) == texts(list@),
{
    let mut out: Vec<String> = Vec::new();
    let mut i: usize = 0;
    while i < list.len()
        invariant
            i <= list@.len(),
            texts(out@) =~= texts(list@).take(i as int),
        decreases list@.len() - i,
    {
        let ghost before = texts(out@);
        out.push(list[i].clone());
        i = i + 1;
        assert(texts(out@) =~= before.push(list@[i - 1]@));
    }
    out
}

/// Adds a text.
pub fn push_text(out: &mut Vec<String>, line: String)
    ensures
        texts(final(out)@) == texts(old(out)@).push(line@),
{
    let ghost before = texts(out@);
    out.push(line);
    assert(texts(out@) =~= before.push(line@));
}

/// Adds a copy of a text.
pub fn push_str(out: &mut Vec<String>, line: &str)
    ensures
        texts(final(out)@) == texts(old(out)@).push(line@),
{
    push_text(out, line.to_owned());
}

/// Adds all of the texts.
pub fn push_all(out: &mut Vec<String>, more: Vec<String>)
    ensures
        texts(final(out)@) == texts(old(out)@) + texts(more@),
{
    let ghost before = texts(out@);
    let ghost behind = texts(more@);
    let mut rest: Vec<String> = more;
    out.append(&mut rest);
    assert(texts(out@) =~= before + behind);
}

/// A copy of an optional string.
pub fn clone_opt(value: &Option<String>) -> (r: Option<String>)
    ensures
        opt_text(r) == opt_text(*value),
{
    match value {
        Some(t) => Some(t.clone()),
        None => None,
    }
}

// ---------------------------------------------------------------------------------------------
// Characters
// ---------------------------------------------------------------------------------------------

/// The Unicode `White_Space` characters.
pub open spec fn white(c: char) -> bool {
    let n = c as u32;
    ||| 0x09 <= n <= 0x0d
    ||| n == 0x20
    ||| n == 0x85
    ||| n == 0xa0
    ||| n == 0x1680
    ||| 0x2000 <= n <= 0x200a
    ||| n == 0x2028
    ||| n == 0x2029
    ||| n == 0x202f
    ||| n == 0x205f
    ||| n == 0x3000
}

pub fn is_white(c: char) -> (r: bool)
    ensures
        r == white(c),
{
    let n: u32 = c as u32;
    (0x09 <= n && n <= 0x0d) || n == 0x20 || n == 0x85 || n == 0xa0 || n == 0x1680 || (0x2000 <= n
        && n <= 0x200a) || n == 0x2028 || n == 0x2029 || n == 0x202f || n == 0x205f || n == 0x3000
}

pub open spec fn digit(c: char) -> bool {
    '0' <= c <= '9'
}

pub fn is_digit(c: char) -> (r: bool)
    ensures
        r == digit(c),
{
    '0' <= c && c <= '9'
}

pub open spec fn hex_digit(c: char) -> bool {
    digit(c) || 'a' <= c <= 'f' || 'A' <= c <= 'F'
}

pub fn is_hex_digit(c: char) -> (r: bool)
    ensures
        r == hex_digit(c),
{
    is_digit(c) || ('a' <= c && c <= 'f') || ('A' <= c && c <= 'F')
}

pub open spec fn lower(c: char) -> bool {
    'a' <= c <= 'z'
}

pub open spec fn alphanumeric(c: char) -> bool {
    digit(c) || lower(c) || 'A' <= c <= 'Z'
}

pub fn is_alphanumeric(c: char) -> (r: bool)
    ensures
        r == alphanumeric(c),
{
    is_digit(c) || ('a' <= c && c <= 'z') || ('A' <= c && c <= 'Z')
}

/// Every character of `s` has the property.
pub open spec fn all(s: Seq<char>, p: spec_fn(char) -> bool) -> bool {
    forall|i: int| 0 <= i < s.len() ==> p(#[trigger] s[i])
}

/// Every character is an ASCII digit.
pub open spec fn all_digits(s: Seq<char>) -> bool {
    forall|i: int| 0 <= i < s.len() ==> digit(#[trigger] s[i])
}

pub fn is_all_digits(s: &Vec<char>) -> (r: bool)
    ensures
        r == all_digits(s@),
{
    let mut i: usize = 0;
    while i < s.len()
        invariant
            i <= s@.len(),
            forall|k: int| 0 <= k < i ==> digit(#[trigger] s@[k]),
        decreases s@.len() - i,
    {
        if !is_digit(s[i]) {
            return false;
        }
        i = i + 1;
    }
    true
}

// ---------------------------------------------------------------------------------------------
// Runs, words, fields, lines
// ---------------------------------------------------------------------------------------------

/// The number of characters from `from` on that have the property, up to the first that has not.
pub open spec fn run_len(s: Seq<char>, p: spec_fn(char) -> bool) -> nat
    decreases s.len(),
{
    if s.len() > 0 && p(s[0]) {
        1 + run_len(s.skip(1), p)
    } else {
        0
    }
}

/// A run ends at the first character without the property, or at the end.
pub proof fn lemma_run_len(s: Seq<char>, p: spec_fn(char) -> bool)
    ensures
        run_len(s, p) <= s.len(),
        forall|i: int| 0 <= i < run_len(s, p) ==> p(#[trigger] s[i]),
        run_len(s, p) < s.len() ==> !p(s[run_len(s, p) as int]),
    decreases s.len(),
{
    if s.len() > 0 && p(s[0]) {
        lemma_run_len(s.skip(1), p);
        assert forall|i: int| 0 <= i < run_len(s, p) implies p(#[trigger] s[i]) by {
            if i > 0 {
                assert(s.skip(1)[i - 1] == s[i]);
            }
        }
    }
}

/// The run length is fixed by what `lemma_run_len` says of it.
pub proof fn lemma_run_len_is(s: Seq<char>, p: spec_fn(char) -> bool, n: nat)
    requires
        n <= s.len(),
        forall|i: int| 0 <= i < n ==> p(#[trigger] s[i]),
        n < s.len() ==> !p(s[n as int]),
    ensures
        run_len(s, p) == n,
{
    lemma_run_len(s, p);
    let m = run_len(s, p);
    if m < n {
        assert(p(s[m as int]));
    } else if n < m {
        assert(p(s[n as int]));
    }
}

/// The property of being white space.
pub open spec fn is_a_white() -> spec_fn(char) -> bool {
    |c: char| white(c)
}

/// The property of not being white space.
pub open spec fn not_white() -> spec_fn(char) -> bool {
    |c: char| !white(c)
}

/// The property of differing from `sep`.
pub open spec fn other_than(sep: char) -> spec_fn(char) -> bool {
    |c: char| c != sep
}

/// The maximal runs of characters that are not white space, in order.
pub open spec fn words(s: Seq<char>) -> Seq<Seq<char>>
    decreases s.len(),
{
    let a = run_len(s, is_a_white());
    if a >= s.len() {
        Seq::empty()
    } else {
        let t = s.skip(a as int);
        let b = run_len(t, not_white());
        proof {
            lemma_run_len(s, is_a_white());
            lemma_run_len(t, not_white());
            assert(t[0] == s[a as int]);
        }
        if 0 < b <= t.len() {
            seq![t.take(b as int)] + words(t.skip(b as int))
        } else {
            Seq::empty()
        }
    }
}

/// A word: not empty, and without white space.
pub open spec fn is_word(s: Seq<char>) -> bool {
    s.len() > 0 && forall|i: int| 0 <= i < s.len() ==> !white(#[trigger] s[i])
}

/// The words of a text are words.
pub proof fn lemma_words_are_words(s: Seq<char>)
    ensures
        forall|i: int| 0 <= i < words(s).len() ==> is_word(#[trigger] words(s)[i]),
    decreases s.len(),
{
    let a = run_len(s, is_a_white());
    lemma_run_len(s, is_a_white());
    if a < s.len() {
        let t = s.skip(a as int);
        let b = run_len(t, not_white());
        lemma_run_len(t, not_white());
        assert(t[0] == s[a as int]);
        if 0 < b <= t.len() {
            let w = t.take(b as int);
            let rest = t.skip(b as int);
            assert forall|i: int| 0 <= i < w.len() implies !white(#[trigger] w[i]) by {
                assert(w[i] == t[i]);
                assert(not_white()(t[i]));
            }
            lemma_words_are_words(rest);
            assert forall|i: int| 0 <= i < words(s).len() implies is_word(
                #[trigger] words(s)[i],
            ) by {
                if i > 0 {
                    assert(words(s)[i] == words(rest)[i - 1]);
                } else {
                    assert(words(s)[0] == w);
                }
            }
        }
    }
}

/// A word followed by white space, or by nothing, is the first word.
pub proof fn lemma_first_word(w: Seq<char>, rest: Seq<char>)
    requires
        is_word(w),
        rest.len() > 0 ==> white(rest[0]),
    ensures
        words(w + rest) == seq![w] + words(rest),
{
    let s = w + rest;
    assert(s[0] == w[0]);
    lemma_run_len_is(s, is_a_white(), 0);
    assert(s.skip(0) =~= s);
    assert forall|i: int| 0 <= i < w.len() implies not_white()(#[trigger] s[i]) by {
        assert(s[i] == w[i]);
    }
    lemma_run_len_is(s, not_white(), w.len());
    assert(s.take(w.len() as int) =~= w);
    assert(s.skip(w.len() as int) =~= rest);
}

/// White space before the first word does not matter.
pub proof fn lemma_leading_white(s: Seq<char>)
    requires
        s.len() > 0,
        white(s[0]),
    ensures
        words(s) == words(s.skip(1)),
{
    let t = s.skip(1);
    let a = run_len(s, is_a_white());
    let b = run_len(t, is_a_white());
    assert(a == b + 1);
    lemma_run_len(t, is_a_white());
    if b < t.len() {
        assert(s.skip(a as int) =~= t.skip(b as int));
    }
}

/// A single word is its own list of words.
pub proof fn lemma_one_word(w: Seq<char>)
    requires
        is_word(w),
    ensures
        words(w) == seq![w],
{
    lemma_first_word(w, Seq::empty());
    assert(w + Seq::<char>::empty() =~= w);
    assert(words(Seq::<char>::empty()) =~= Seq::empty());
    assert(seq![w] + Seq::<Seq<char>>::empty() =~= seq![w]);
}

/// Two words with a space between them.
pub proof fn lemma_two_words(a: Seq<char>, b: Seq<char>)
    requires
        is_word(a),
        is_word(b),
    ensures
        words(a + " "@ + b) == seq![a, b],
{
    reveal_strlit(" ");
    let rest = " "@ + b;
    lemma_first_word(a, rest);
    assert(a + " "@ + b =~= a + rest);
    lemma_leading_white(rest);
    assert(rest.skip(1) =~= b);
    lemma_one_word(b);
    assert(seq![a] + seq![b] =~= seq![a, b]);
}

/// The words of the text, as `str::split_whitespace` gives them.
pub fn words_of(s: &str) -> (r: Vec<String>)
    ensures
        texts(r@) == words(s@),
{
    let chars: Vec<char> = chars_of(s);
    let mut out: Vec<String> = Vec::new();
    let mut i: usize = 0;
    assert(chars@.skip(0) =~= chars@);
    while i < chars.len()
        invariant
            i <= chars@.len(),
            words(chars@) =~= texts(out@) + words(chars@.skip(i as int)),
        decreases chars@.len() - i,
    {
        let ghost start = i as int;
        let ghost rest = chars@.skip(i as int);
        while i < chars.len() && is_white(chars[i])
            invariant
                start <= i <= chars@.len(),
                0 <= start,
                forall|k: int| start <= k < i ==> white(#[trigger] chars@[k]),
            decreases chars@.len() - i,
        {
            i = i + 1;
        }
        proof {
            lemma_run_len_is(rest, is_a_white(), (i - start) as nat);
        }
        if i < chars.len() {
            let from: usize = i;
            let ghost t = rest.skip((i - start) as int);
            while i < chars.len() && !is_white(chars[i])
                invariant
                    from <= i <= chars@.len(),
                    forall|k: int| from <= k < i ==> !white(#[trigger] chars@[k]),
                decreases chars@.len() - i,
            {
                i = i + 1;
            }
            proof {
                lemma_run_len_is(t, not_white(), (i - from) as nat);
                assert(t.take((i - from) as int) =~= chars@.subrange(from as int, i as int));
                assert(t.skip((i - from) as int) =~= chars@.skip(i as int));
            }
            let ghost before = texts(out@);
            out.push(text_range(&chars, from, i));
            assert(texts(out@) =~= before.push(chars@.subrange(from as int, i as int)));
        } else {
            assert(words(rest) =~= Seq::empty());
            assert(words(chars@.skip(i as int)) =~= Seq::empty());
        }
    }
    assert(words(chars@.skip(i as int)) =~= Seq::empty());
    out
}

/// The pieces of `s` between occurrences of `sep`; there is always at least one.
pub open spec fn fields(s: Seq<char>, sep: char) -> Seq<Seq<char>>
    decreases s.len(),
{
    let n = run_len(s, other_than(sep));
    if n >= s.len() {
        seq![s]
    } else {
        seq![s.take(n as int)] + fields(s.skip(n as int + 1), sep)
    }
}

/// The pieces of the text between occurrences of `sep`, as `str::split` gives them.
pub fn fields_of(s: &str, sep: char) -> (r: Vec<String>)
    ensures
        texts(r@) == fields(s@, sep),
        r@.len() >= 1,
{
    let chars: Vec<char> = chars_of(s);
    let mut out: Vec<String> = Vec::new();
    let mut from: usize = 0;
    let mut i: usize = 0;
    assert(chars@.skip(0) =~= chars@);
    while i < chars.len()
        invariant
            from <= i <= chars@.len(),
            forall|k: int| from <= k < i ==> #[trigger] chars@[k] != sep,
            fields(chars@, sep) =~= texts(out@) + fields(chars@.skip(from as int), sep),
        decreases chars@.len() - i,
    {
        if chars[i] == sep {
            let ghost rest = chars@.skip(from as int);
            let ghost before = texts(out@);
            proof {
                lemma_run_len_is(rest, other_than(sep), (i - from) as nat);
                assert(rest.take((i - from) as int) =~= chars@.subrange(from as int, i as int));
                assert(rest.skip((i - from) + 1) =~= chars@.skip(i + 1));
            }
            out.push(text_range(&chars, from, i));
            assert(texts(out@) =~= before.push(chars@.subrange(from as int, i as int)));
            from = i + 1;
        }
        i = i + 1;
    }
    let ghost rest = chars@.skip(from as int);
    let ghost before = texts(out@);
    proof {
        lemma_run_len_is(rest, other_than(sep), (i - from) as nat);
        assert(rest =~= chars@.subrange(from as int, i as int));
    }
    out.push(text_range(&chars, from, i));
    assert(texts(out@) =~= before.push(chars@.subrange(from as int, i as int)));
    out
}

/// What stands before and after the first `sep`, where there is one.
pub open spec fn halves(s: Seq<char>, sep: char) -> Option<(Seq<char>, Seq<char>)> {
    let n = run_len(s, other_than(sep)) as int;
    if n < s.len() {
        Some((s.take(n), s.skip(n + 1)))
    } else {
        None
    }
}

/// What stands before and after the first `sep`, as `str::split_once` gives it.
pub fn halves_of(s: &str, sep: char) -> (r: Option<(String, String)>)
    ensures
        match r {
            Some((a, b)) => halves(s@, sep) == Some((a@, b@)),
            None => halves(s@, sep) is None,
        },
{
    let chars: Vec<char> = chars_of(s);
    let mut i: usize = 0;
    while i < chars.len() && chars[i] != sep
        invariant
            i <= chars@.len(),
            forall|k: int| 0 <= k < i ==> #[trigger] chars@[k] != sep,
        decreases chars@.len() - i,
    {
        i = i + 1;
    }
    proof {
        lemma_run_len_is(chars@, other_than(sep), i as nat);
    }
    if i < chars.len() {
        let a: String = text_range(&chars, 0, i);
        let b: String = text_range(&chars, i + 1, chars.len());
        assert(a@ =~= s@.take(i as int));
        assert(b@ =~= s@.skip(i + 1));
        Some((a, b))
    } else {
        None
    }
}

/// The lines of `s`: they end at a line feed, lose one carriage return before it, and the empty
/// text after a final line feed is no line.
pub open spec fn lines(s: Seq<char>) -> Seq<Seq<char>>
    decreases s.len(),
{
    let n = run_len(s, other_than('\n'));
    if s.len() == 0 {
        Seq::empty()
    } else if n >= s.len() {
        seq![s]
    } else {
        seq![without_return(s.take(n as int))] + lines(s.skip(n as int + 1))
    }
}

/// `s` without one final carriage return.
pub open spec fn without_return(s: Seq<char>) -> Seq<char> {
    if s.len() > 0 && s.last() == '\r' {
        s.drop_last()
    } else {
        s
    }
}

/// The lines of the text, as `str::lines` gives them.
pub fn lines_of(s: &str) -> (r: Vec<String>)
    ensures
        texts(r@) == lines(s@),
{
    let chars: Vec<char> = chars_of(s);
    let mut out: Vec<String> = Vec::new();
    let mut from: usize = 0;
    let mut i: usize = 0;
    assert(chars@.skip(0) =~= chars@);
    while i < chars.len()
        invariant
            from <= i <= chars@.len(),
            forall|k: int| from <= k < i ==> #[trigger] chars@[k] != '\n',
            lines(chars@) =~= texts(out@) + lines(chars@.skip(from as int)),
        decreases chars@.len() - i,
    {
        if chars[i] == '\n' {
            let ghost rest = chars@.skip(from as int);
            let ghost before = texts(out@);
            let ghost line = chars@.subrange(from as int, i as int);
            proof {
                lemma_run_len_is(rest, other_than('\n'), (i - from) as nat);
                assert(rest.take((i - from) as int) =~= line);
                assert(rest.skip((i - from) + 1) =~= chars@.skip(i + 1));
            }
            let mut end: usize = i;
            if from < i && chars[i - 1] == '\r' {
                end = i - 1;
                assert(line.drop_last() =~= chars@.subrange(from as int, end as int));
            }
            out.push(text_range(&chars, from, end));
            assert(texts(out@) =~= before.push(without_return(line)));
            from = i + 1;
        }
        i = i + 1;
    }
    let ghost rest = chars@.skip(from as int);
    if from < i {
        let ghost before = texts(out@);
        proof {
            lemma_run_len_is(rest, other_than('\n'), (i - from) as nat);
            assert(rest =~= chars@.subrange(from as int, i as int));
        }
        out.push(text_range(&chars, from, i));
        assert(texts(out@) =~= before.push(chars@.subrange(from as int, i as int)));
    }
    out
}

// ---------------------------------------------------------------------------------------------
// Trimming, padding, joining
// ---------------------------------------------------------------------------------------------

/// `s` without its trailing white space.
pub open spec fn trim_end(s: Seq<char>) -> Seq<char>
    decreases s.len(),
{
    if s.len() > 0 && white(s.last()) {
        trim_end(s.drop_last())
    } else {
        s
    }
}

/// `s` without its leading white space.
pub open spec fn trim_start(s: Seq<char>) -> Seq<char> {
    s.skip(run_len(s, is_a_white()) as int)
}

/// `s` without white space at either end.
pub open spec fn trim(s: Seq<char>) -> Seq<char> {
    trim_end(trim_start(s))
}

/// The text of `chars[from..to]` without its trailing white space.
pub fn trimmed_range(chars: &Vec<char>, from: usize, to: usize) -> (r: String)
    requires
        from <= to <= chars@.len(),
    ensures
        r@ == trim_end(chars@.subrange(from as int, to as int)),
{
    let mut end: usize = to;
    let ghost whole = chars@.subrange(from as int, to as int);
    while from < end && is_white(chars[end - 1])
        invariant
            from <= end <= to <= chars@.len(),
            trim_end(whole) == trim_end(chars@.subrange(from as int, end as int)),
        decreases end,
    {
        end = end - 1;
        assert(chars@.subrange(from as int, end + 1).drop_last() =~= chars@.subrange(
            from as int,
            end as int,
        ));
    }
    text_range(chars, from, end)
}

/// The text without white space at either end, as `str::trim` gives it.
pub fn trimmed(s: &str) -> (r: String)
    ensures
        r@ == trim(s@),
{
    let chars: Vec<char> = chars_of(s);
    let mut i: usize = 0;
    while i < chars.len() && is_white(chars[i])
        invariant
            i <= chars@.len(),
            forall|k: int| 0 <= k < i ==> white(#[trigger] chars@[k]),
        decreases chars@.len() - i,
    {
        i = i + 1;
    }
    proof {
        lemma_run_len_is(chars@, is_a_white(), i as nat);
        assert(chars@.subrange(i as int, chars@.len() as int) =~= chars@.skip(i as int));
    }
    trimmed_range(&chars, i, chars.len())
}

/// `s` filled up on the left to `width` characters.
pub open spec fn pad_left(s: Seq<char>, width: nat, fill: char) -> Seq<char> {
    if s.len() >= width {
        s
    } else {
        Seq::new((width - s.len()) as nat, |i: int| fill) + s
    }
}

pub fn padded_left(s: &Vec<char>, width: usize, fill: char) -> (r: Vec<char>)
    ensures
        r@ == pad_left(s@, width as nat, fill),
{
    let mut out: Vec<char> = Vec::new();
    if s.len() < width {
        let missing: usize = width - s.len();
        let mut i: usize = 0;
        while i < missing
            invariant
                i <= missing,
                out@ =~= Seq::new(i as nat, |k: int| fill),
            decreases missing - i,
        {
            out.push(fill);
            i = i + 1;
        }
    }
    let mut k: usize = 0;
    let ghost head = out@;
    while k < s.len()
        invariant
            k <= s@.len(),
            out@ =~= head + s@.take(k as int),
        decreases s@.len() - k,
    {
        out.push(s[k]);
        k = k + 1;
    }
    out
}

/// The texts of `list` with `sep` between neighbours.
pub open spec fn join(list: Seq<Seq<char>>, sep: Seq<char>) -> Seq<char>
    decreases list.len(),
{
    if list.len() == 0 {
        Seq::empty()
    } else if list.len() == 1 {
        list[0]
    } else {
        join(list.drop_last(), sep) + sep + list.last()
    }
}

pub fn joined(list: &Vec<String>, sep: &str) -> (r: String)
    ensures
        r@ == join(texts(list@), sep@),
{
    let mut out: String = String::new();
    let mut i: usize = 0;
    while i < list.len()
        invariant
            i <= list@.len(),
            out@ == join(texts(list@).take(i as int), sep@),
        decreases list@.len() - i,
    {
        if i > 0 {
            out.append(sep);
        }
        out.append(list[i].as_str());
        i = i + 1;
        assert(texts(list@).take(i as int).drop_last() =~= texts(list@).take(i - 1));
        assert(i == 1 ==> Seq::<char>::empty() + list@[0]@ =~= list@[0]@);
    }
    assert(texts(list@).take(i as int) =~= texts(list@));
    out
}

// ---------------------------------------------------------------------------------------------
// Prefixes and occurrences
// ---------------------------------------------------------------------------------------------

pub open spec fn starts_with(s: Seq<char>, prefix: Seq<char>) -> bool {
    s.len() >= prefix.len() && s.take(prefix.len() as int) == prefix
}

/// Joined lines start with the first of them.
pub proof fn lemma_join_starts(list: Seq<Seq<char>>, sep: Seq<char>)
    requires
        list.len() >= 2,
    ensures
        starts_with(join(list, sep), list[0] + sep),
    decreases list.len(),
{
    let head = list[0] + sep;
    let rest = list.drop_last();
    if list.len() == 2 {
        assert(join(rest, sep) == list[0]);
        assert((head + list.last()).take(head.len() as int) =~= head);
    } else {
        lemma_join_starts(rest, sep);
        let body = join(rest, sep);
        assert((body + sep + list.last()).take(head.len() as int) =~= body.take(
            head.len() as int,
        ));
    }
}

/// What follows `prefix` in `s`, where `s` starts with it.
pub open spec fn after_prefix(s: Seq<char>, prefix: Seq<char>) -> Option<Seq<char>> {
    if starts_with(s, prefix) {
        Some(s.skip(prefix.len() as int))
    } else {
        None
    }
}

/// Whether `needle` stands in `s` at position `i`.
pub open spec fn at(s: Seq<char>, needle: Seq<char>, i: int) -> bool {
    0 <= i && i + needle.len() <= s.len() && s.subrange(i, i + needle.len()) == needle
}

pub open spec fn contains(s: Seq<char>, needle: Seq<char>) -> bool {
    exists|i: int| at(s, needle, i)
}

pub fn is_at(s: &Vec<char>, needle: &Vec<char>, i: usize) -> (r: bool)
    ensures
        r == at(s@, needle@, i as int),
{
    if needle.len() > s.len() || i > s.len() - needle.len() {
        return false;
    }
    let mut k: usize = 0;
    while k < needle.len()
        invariant
            k <= needle@.len(),
            i + needle@.len() <= s@.len() <= usize::MAX,
            forall|j: int| 0 <= j < k ==> s@[i + j] == #[trigger] needle@[j],
        decreases needle@.len() - k,
    {
        if s[i + k] != needle[k] {
            assert(s@.subrange(i as int, i + needle@.len())[k as int] != needle@[k as int]);
            return false;
        }
        k = k + 1;
    }
    assert(s@.subrange(i as int, i + needle@.len()) =~= needle@);
    true
}

pub fn has_prefix(s: &str, prefix: &str) -> (r: bool)
    ensures
        r == starts_with(s@, prefix@),
{
    let a: Vec<char> = chars_of(s);
    let b: Vec<char> = chars_of(prefix);
    let r: bool = is_at(&a, &b, 0);
    assert(starts_with(s@, prefix@) ==> s@.subrange(0, prefix@.len() as int) =~= s@.take(
        prefix@.len() as int,
    ));
    assert(r ==> s@.take(prefix@.len() as int) =~= s@.subrange(0, prefix@.len() as int));
    r
}

/// What follows `prefix`, as `str::strip_prefix` gives it.
pub fn strip_prefix(s: &str, prefix: &str) -> (r: Option<String>)
    ensures
        opt_text(r) == after_prefix(s@, prefix@),
{
    if has_prefix(s, prefix) {
        let a: Vec<char> = chars_of(s);
        let n: usize = chars_of(prefix).len();
        assert(a@.subrange(n as int, a@.len() as int) =~= s@.skip(prefix@.len() as int));
        Some(text_range(&a, n, a.len()))
    } else {
        None
    }
}

/// The first position of `needle` in `s`.
pub open spec fn index_of(s: Seq<char>, needle: Seq<char>) -> Option<nat>
    decreases s.len(),
{
    if at(s, needle, 0) {
        Some(0)
    } else if s.len() == 0 {
        None
    } else {
        match index_of(s.skip(1), needle) {
            Some(i) => Some(i + 1),
            None => None,
        }
    }
}

/// The first position is a position, and no earlier one is.
pub proof fn lemma_index_of(s: Seq<char>, needle: Seq<char>)
    ensures
        index_of(s, needle) matches Some(i) ==> at(s, needle, i as int) && forall|k: int|
            0 <= k < i ==> !at(s, needle, k),
        index_of(s, needle) is None ==> forall|k: int| !at(s, needle, k),
    decreases s.len(),
{
    if at(s, needle, 0) {
    } else if s.len() == 0 {
    } else {
        lemma_index_of(s.skip(1), needle);
        assert forall|k: int| 1 <= k implies at(s, needle, k) == at(s.skip(1), needle, k - 1) by {
            if k + needle.len() <= s.len() {
                assert(s.subrange(k, k + needle.len()) =~= s.skip(1).subrange(
                    k - 1,
                    k - 1 + needle.len(),
                ));
            }
        }
        assert forall|k: int| at(s, needle, k) implies at(s.skip(1), needle, k - 1) by {
            assert(k != 0);
        }
    }
}

/// `index_of` is fixed by what `lemma_index_of` says of it.
pub proof fn lemma_index_of_is(s: Seq<char>, needle: Seq<char>, i: int)
    requires
        at(s, needle, i),
        forall|k: int| 0 <= k < i ==> !at(s, needle, k),
    ensures
        index_of(s, needle) == Some(i as nat),
{
    lemma_index_of(s, needle);
    let m = index_of(s, needle)->Some_0;
    if m < i {
        assert(at(s, needle, m as int));
    }
}

/// The first position of `needle` at or after `from`, counted from the start.
pub fn find_from(s: &Vec<char>, needle: &Vec<char>, from: usize) -> (r: Option<usize>)
    requires
        from <= s@.len(),
    ensures
        match r {
            Some(i) => from <= i && i + needle@.len() <= s@.len() && index_of(
                s@.skip(from as int),
                needle@,
            ) == Some((i - from) as nat),
            None => index_of(s@.skip(from as int), needle@) is None,
        },
{
    let ghost rest = s@.skip(from as int);
    let mut i: usize = from;
    while i < s.len()
        invariant
            from <= i <= s@.len(),
            rest == s@.skip(from as int),
            forall|k: int| 0 <= k < i - from ==> !at(rest, needle@, k),
        decreases s@.len() - i,
    {
        let here: bool = is_at(s, needle, i);
        proof {
            lemma_at_skip(s@, needle@, from as int, i as int);
        }
        if here {
            proof {
                lemma_index_of_is(rest, needle@, i - from);
            }
            return Some(i);
        }
        i = i + 1;
    }
    let here: bool = is_at(s, needle, i);
    proof {
        lemma_at_skip(s@, needle@, from as int, i as int);
        lemma_index_of(rest, needle@);
    }
    if here {
        proof {
            lemma_index_of_is(rest, needle@, i - from);
        }
        Some(i)
    } else {
        None
    }
}

proof fn lemma_at_skip(s: Seq<char>, needle: Seq<char>, from: int, i: int)
    requires
        0 <= from <= i,
        from <= s.len(),
    ensures
        at(s, needle, i) == at(s.skip(from), needle, i - from),
{
    if i + needle.len() <= s.len() {
        assert(s.skip(from).subrange(i - from, i - from + needle.len()) =~= s.subrange(
            i,
            i + needle.len(),
        ));
    }
}

/// Whether `needle` occurs in the text.
pub fn has(s: &str, needle: &str) -> (r: bool)
    ensures
        r == contains(s@, needle@),
{
    let a: Vec<char> = chars_of(s);
    let b: Vec<char> = chars_of(needle);
    assert(a@.skip(0) =~= a@);
    proof {
        lemma_index_of(a@, b@);
    }
    match find_from(&a, &b, 0) {
        Some(i) => {
            assert(at(s@, needle@, i as int));
            true
        },
        None => false,
    }
}

/// The number of occurrences of `needle` in `s` that do not overlap, taken from the left. The
/// empty needle occurs before every character and at the end.
pub open spec fn occurrences(s: Seq<char>, needle: Seq<char>) -> nat
    decreases s.len(),
{
    if needle.len() == 0 {
        s.len() + 1
    } else {
        match index_of(s, needle) {
            Some(i) => if i + needle.len() <= s.len() {
                1 + occurrences(s.skip((i + needle.len()) as int), needle)
            } else {
                0
            },
            None => 0,
        }
    }
}

/// The number of occurrences that do not overlap, as `str::match_indices` finds them; the greatest
/// `usize` where there are more, which only the empty needle could have.
pub fn count_occurrences(text: &str, needle: &str) -> (r: usize)
    ensures
        r == (if occurrences(text@, needle@) <= usize::MAX {
            occurrences(text@, needle@)
        } else {
            usize::MAX as nat
        }),
        needle@.len() > 0 ==> r == occurrences(text@, needle@),
{
    let s: Vec<char> = chars_of(text);
    let n: Vec<char> = chars_of(needle);
    if n.len() == 0 {
        return if s.len() == usize::MAX {
            usize::MAX
        } else {
            s.len() + 1
        };
    }
    let mut from: usize = 0;
    let mut count: usize = 0;
    let total: usize = s.len();
    assert(s@.skip(0) =~= s@);
    while from <= total
        invariant
            from <= total,
            total == s@.len(),
            n@.len() > 0,
            s@ == text@,
            n@ == needle@,
            count <= from,
            occurrences(s@, n@) == count + occurrences(s@.skip(from as int), n@),
        decreases s@.len() - from,
    {
        match find_from(&s, &n, from) {
            Some(i) => {
                proof {
                    assert(s@.skip(from as int).skip(i - from + n@.len()) =~= s@.skip(
                        i + n@.len(),
                    ));
                }
                count = count + 1;
                from = i + n.len();
            },
            None => {
                return count;
            },
        }
    }
    count
}

// ---------------------------------------------------------------------------------------------
// Order
// ---------------------------------------------------------------------------------------------

/// Strict lexicographic order by code point, which is also the order of the UTF-8 bytes.
pub open spec fn before(a: Seq<char>, b: Seq<char>) -> bool
    decreases a.len(),
{
    if b.len() == 0 {
        false
    } else if a.len() == 0 {
        true
    } else if a[0] != b[0] {
        a[0] < b[0]
    } else {
        before(a.skip(1), b.skip(1))
    }
}

pub proof fn lemma_before_irreflexive(a: Seq<char>)
    ensures
        !before(a, a),
    decreases a.len(),
{
    if a.len() > 0 {
        lemma_before_irreflexive(a.skip(1));
    }
}

pub proof fn lemma_before_transitive(a: Seq<char>, b: Seq<char>, c: Seq<char>)
    requires
        before(a, b),
        before(b, c),
    ensures
        before(a, c),
    decreases a.len(),
{
    if a.len() > 0 && a[0] == b[0] && b[0] == c[0] {
        lemma_before_transitive(a.skip(1), b.skip(1), c.skip(1));
    }
}

pub proof fn lemma_before_total(a: Seq<char>, b: Seq<char>)
    ensures
        before(a, b) || before(b, a) || a == b,
    decreases a.len(),
{
    if a.len() > 0 && b.len() > 0 {
        if a[0] == b[0] {
            lemma_before_total(a.skip(1), b.skip(1));
            if a.skip(1) == b.skip(1) {
                assert(a =~= seq![a[0]] + a.skip(1));
                assert(b =~= seq![b[0]] + b.skip(1));
            }
        }
    } else {
        assert(a.len() == 0 && b.len() == 0 ==> a =~= b);
    }
}

/// The first difference decides.
pub proof fn lemma_before_at(a: Seq<char>, b: Seq<char>, i: int)
    requires
        0 <= i < a.len(),
        i < b.len(),
        forall|k: int| 0 <= k < i ==> #[trigger] a[k] == #[trigger] b[k],
        a[i] < b[i],
    ensures
        before(a, b),
    decreases i,
{
    if i > 0 {
        assert(a[0] == b[0]);
        let (c, d) = (a.skip(1), b.skip(1));
        assert forall|k: int| 0 <= k < i - 1 implies #[trigger] c[k] == #[trigger] d[k] by {
            assert(c[k] == a[k + 1] && d[k] == b[k + 1]);
        }
        lemma_before_at(c, d, i - 1);
    }
}

/// Whether `a` comes strictly before `b`.
pub fn is_before(a: &str, b: &str) -> (r: bool)
    ensures
        r == before(a@, b@),
{
    let x: Vec<char> = chars_of(a);
    let y: Vec<char> = chars_of(b);
    let mut i: usize = 0;
    assert(x@.skip(0) =~= x@);
    assert(y@.skip(0) =~= y@);
    while i < x.len() && i < y.len()
        invariant
            i <= x@.len(),
            i <= y@.len(),
            x@ == a@,
            y@ == b@,
            before(x@, y@) == before(x@.skip(i as int), y@.skip(i as int)),
        decreases x@.len() - i,
    {
        if x[i] != y[i] {
            return x[i] < y[i];
        }
        i = i + 1;
        assert(x@.skip(i - 1).skip(1) =~= x@.skip(i as int));
        assert(y@.skip(i - 1).skip(1) =~= y@.skip(i as int));
    }
    i < y.len()
}

/// The text with its ASCII capitals made small.
pub open spec fn lowered(s: Seq<char>) -> Seq<char> {
    s.map_values(|c: char| small(c))
}

/// The small letter of an ASCII capital; any other character itself.
pub open spec fn small(c: char) -> char {
    if 'A' <= c && c <= 'Z' {
        (c as u32 + 32) as char
    } else {
        c
    }
}

fn small_of(c: char) -> (r: char)
    ensures
        r == small(c),
{
    if 'A' <= c && c <= 'Z' {
        let code: u8 = c as u8;
        (code + 32) as char
    } else {
        c
    }
}

/// The text with its ASCII capitals made small.
pub fn lowered_of(s: &str) -> (r: String)
    ensures
        r@ == lowered(s@),
{
    let chars: Vec<char> = chars_of(s);
    let mut out: Vec<char> = Vec::new();
    let mut i: usize = 0;
    assert(out@ =~= lowered(s@.take(0)));
    while i < chars.len()
        invariant
            i <= chars@.len(),
            chars@ == s@,
            out@ =~= lowered(s@.take(i as int)),
        decreases chars@.len() - i,
    {
        out.push(small_of(chars[i]));
        i = i + 1;
    }
    assert(s@.take(i as int) =~= s@);
    text_of(&out)
}

/// A text in quotes, with escapes.
pub uninterp spec fn debugged(s: Seq<char>) -> Seq<char>;

/// The `Debug` form of `str` in std, as `{:?}` writes it: a function of the text alone.
#[verifier::external_body]
pub(crate) fn debug_text(s: &str) -> (r: String)
    ensures
        r@ == debugged(s@),
{
    format!("{:?}", s)
}

/// The text of some bytes, with a replacement character for what is not UTF-8.
pub uninterp spec fn lossy(bytes: Seq<u8>) -> Seq<char>;

/// `String::from_utf8_lossy` of std: a function of the bytes alone, and the text that they encode
/// where they are well-formed UTF-8.
#[verifier::external_body]
pub(crate) fn lossy_text(bytes: &[u8]) -> (r: String)
    ensures
        r@ == lossy(bytes@),
        vstd::utf8::valid_utf8(bytes@) ==> r@ == vstd::utf8::decode_utf8(bytes@),
{
    String::from_utf8_lossy(bytes).into_owned()
}

} // verus!
