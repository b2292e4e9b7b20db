//! The request model: the three tokens of a request line.

use vstd::prelude::*;
use vstd::string::*;

verus! {

/// Whether `c` has the Unicode `White_Space` property.
pub uninterp spec fn is_whitespace(c: char) -> bool;

/// Calls `char::is_whitespace`. The result is the `White_Space` property
/// of `c`, which this library only names.
#[verifier::external_body]
fn char_is_whitespace(c: char) -> (b: bool)
    ensures
        b == is_whitespace(c),
{
    c.is_whitespace()
}

/// Number of characters before the first line feed of `s`.
pub open spec fn line_len(s: Seq<char>) -> nat
    decreases s.len(),
{
    if s.len() == 0 || s[0] == '\n' {
        0
    } else {
        1 + line_len(s.drop_first())
    }
}

/// The first line of `s`, without its line feed. A carriage return that
/// ends the line stays in it: it is whitespace and reaches no token.
pub open spec fn first_line(s: Seq<char>) -> Seq<char> {
    s.subrange(0, line_len(s) as int)
}

/// Number of characters before the first whitespace character of `s`.
pub open spec fn word_len(s: Seq<char>) -> nat
    decreases s.len(),
{
    if s.len() == 0 || is_whitespace(s[0]) {
        0
    } else {
        1 + word_len(s.drop_first())
    }
}

/// `line_len` never exceeds the length, and stops at a line feed.
pub proof fn lemma_line_len(s: Seq<char>)
    ensures
        line_len(s) <= s.len(),
        line_len(s) < s.len() ==> s[line_len(s) as int] == '\n',
        forall|i: int| 0 <= i < line_len(s) ==> s[i] != '\n',
    decreases s.len(),
{
    if s.len() == 0 || s[0] == '\n' {
    } else {
        let r = s.drop_first();
        lemma_line_len(r);
        assert forall|i: int| 0 <= i < line_len(s) implies s[i] != '\n' by {
            if i > 0 {
                assert(s[i] == r[i - 1]);
            }
        }
        if line_len(s) < s.len() {
            assert(s[line_len(s) as int] == r[line_len(r) as int]);
        }
    }
}

/// `word_len` never exceeds the length, stops at whitespace, and passes
/// over none.
pub proof fn lemma_word_len(s: Seq<char>)
    ensures
        word_len(s) <= s.len(),
        word_len(s) < s.len() ==> is_whitespace(s[word_len(s) as int]),
        forall|i: int| 0 <= i < word_len(s) ==> !is_whitespace(s[i]),
    decreases s.len(),
{
    if s.len() == 0 || is_whitespace(s[0]) {
    } else {
        let r = s.drop_first();
        lemma_word_len(r);
        assert forall|i: int| 0 <= i < word_len(s) implies !is_whitespace(s[i]) by {
            if i > 0 {
                assert(s[i] == r[i - 1]);
            }
        }
        if word_len(s) < s.len() {
            assert(s[word_len(s) as int] == r[word_len(r) as int]);
        }
    }
}

/// The maximal whitespace-free runs of `s`, in order.
pub open spec fn tokens(s: Seq<char>) -> Seq<Seq<char>>
    decreases s.len(),
{
    if s.len() == 0 {
        Seq::empty()
    } else if is_whitespace(s[0]) {
        tokens(s.drop_first())
    } else {
        let n = word_len(s) as int;
        proof {
            lemma_word_len(s);
        }
        seq![s.subrange(0, n)] + tokens(s.subrange(n, s.len() as int))
    }
}

/// A non-empty run of characters without whitespace.
pub open spec fn is_token(s: Seq<char>) -> bool {
    s.len() > 0 && forall|i: int| 0 <= i < s.len() ==> !is_whitespace(s[i])
}

/// Every token is non-empty and holds no whitespace.
pub proof fn lemma_tokens_are_words(s: Seq<char>)
    ensures
        forall|k: int| 0 <= k < tokens(s).len() ==> is_token(#[trigger] tokens(s)[k]),
    decreases s.len(),
{
    if s.len() == 0 {
        assert(tokens(s).len() == 0);
    } else if is_whitespace(s[0]) {
        lemma_tokens_are_words(s.drop_first());
        assert(tokens(s) == tokens(s.drop_first()));
    } else {
        let n = word_len(s) as int;
        lemma_word_len(s);
        let tail = s.subrange(n, s.len() as int);
        lemma_tokens_are_words(tail);
        let head = s.subrange(0, n);
        assert forall|i: int| 0 <= i < head.len() implies !is_whitespace(head[i]) by {
            assert(head[i] == s[i]);
        }
        assert(is_token(head));
        assert(tokens(s) == seq![head] + tokens(tail));
        assert forall|k: int| 0 <= k < tokens(s).len() implies is_token(
            #[trigger] tokens(s)[k],
        ) by {
            if k == 0 {
                assert(tokens(s)[0] == head);
            } else {
                assert(tokens(s)[k] == tokens(tail)[k - 1]);
            }
        }
    }
}

/// Every character of `s` is whitespace.
pub open spec fn all_whitespace(s: Seq<char>) -> bool {
    forall|i: int| 0 <= i < s.len() ==> is_whitespace(s[i])
}

/// Whitespace at the start gives no token.
pub proof fn lemma_tokens_skip_whitespace(gap: Seq<char>, s: Seq<char>)
    requires
        all_whitespace(gap),
    ensures
        tokens(gap + s) == tokens(s),
    decreases gap.len(),
{
    if gap.len() == 0 {
        assert(gap + s =~= s);
    } else {
        let whole = gap + s;
        assert(whole[0] == gap[0]);
        assert(whole.drop_first() =~= gap.drop_first() + s);
        lemma_tokens_skip_whitespace(gap.drop_first(), s);
    }
}

proof fn lemma_word_len_of_prefix(word: Seq<char>, tail: Seq<char>)
    requires
        forall|i: int| 0 <= i < word.len() ==> !is_whitespace(word[i]),
        tail.len() > 0 ==> is_whitespace(tail[0]),
    ensures
        word_len(word + tail) == word.len(),
    decreases word.len(),
{
    let whole = word + tail;
    if word.len() == 0 {
        assert(whole =~= tail);
    } else {
        assert(whole[0] == word[0]);
        assert(whole.drop_first() =~= word.drop_first() + tail);
        lemma_word_len_of_prefix(word.drop_first(), tail);
    }
}

/// A token at the start, followed by whitespace or by nothing, is the
/// first token.
pub proof fn lemma_tokens_first_word(word: Seq<char>, tail: Seq<char>)
    requires
        is_token(word),
        tail.len() > 0 ==> is_whitespace(tail[0]),
    ensures
        tokens(word + tail) == seq![word] + tokens(tail),
{
    let whole = word + tail;
    assert(whole[0] == word[0]);
    lemma_word_len_of_prefix(word, tail);
    let n = word_len(whole) as int;
    assert(whole.subrange(0, n) =~= word);
    assert(whole.subrange(n, whole.len() as int) =~= tail);
}

/// Three tokens with whitespace between them, and any whitespace before
/// and after, split into just those three.
pub proof fn lemma_three_tokens(
    lead: Seq<char>,
    method: Seq<char>,
    gap1: Seq<char>,
    target: Seq<char>,
    gap2: Seq<char>,
    version: Seq<char>,
    trail: Seq<char>,
)
    requires
        is_token(method),
        is_token(target),
        is_token(version),
        all_whitespace(lead),
        all_whitespace(gap1) && gap1.len() > 0,
        all_whitespace(gap2) && gap2.len() > 0,
        all_whitespace(trail),
    ensures
        tokens(lead + method + gap1 + target + gap2 + version + trail) == seq![
            method,
            target,
            version,
        ],
{
    let after_version = trail;
    let from_version = version + after_version;
    let from_gap2 = gap2 + from_version;
    let from_target = target + from_gap2;
    let from_gap1 = gap1 + from_target;
    let from_method = method + from_gap1;
    assert(lead + method + gap1 + target + gap2 + version + trail =~= lead + from_method);
    lemma_tokens_skip_whitespace(lead, from_method);
    assert(from_gap1[0] == gap1[0]);
    lemma_tokens_first_word(method, from_gap1);
    lemma_tokens_skip_whitespace(gap1, from_target);
    assert(from_gap2[0] == gap2[0]);
    lemma_tokens_first_word(target, from_gap2);
    lemma_tokens_skip_whitespace(gap2, from_version);
    lemma_tokens_first_word(version, after_version);
    lemma_tokens_skip_whitespace(trail, Seq::empty());
    assert(trail + Seq::<char>::empty() =~= trail);
    assert(tokens(Seq::<char>::empty()) =~= Seq::<Seq<char>>::empty());
    assert(seq![method] + (seq![target] + (seq![version] + Seq::<Seq<char>>::empty())) =~= seq![
        method,
        target,
        version,
    ]);
}

/// What follows a line feed does not change the first line.
pub proof fn lemma_first_line_ignores_rest(line: Seq<char>, rest: Seq<char>)
    requires
        forall|i: int| 0 <= i < line.len() ==> line[i] != '\n',
    ensures
        first_line(line + seq!['\n'] + rest) == line,
        first_line(line) == line,
{
    let whole = line + seq!['\n'] + rest;
    lemma_line_len_of_prefix(line, seq!['\n'] + rest);
    assert(whole =~= line + (seq!['\n'] + rest));
    lemma_line_len_of_prefix(line, Seq::empty());
    assert(line + Seq::<char>::empty() =~= line);
    assert(first_line(whole) =~= line);
    assert(first_line(line) =~= line);
}

proof fn lemma_line_len_of_prefix(line: Seq<char>, tail: Seq<char>)
    requires
        forall|i: int| 0 <= i < line.len() ==> line[i] != '\n',
        tail.len() > 0 ==> tail[0] == '\n',
    ensures
        line_len(line + tail) == line.len(),
    decreases line.len(),
{
    let whole = line + tail;
    if line.len() == 0 {
        assert(whole =~= tail);
    } else {
        assert(whole[0] == line[0]);
        assert(whole.drop_first() =~= line.drop_first() + tail);
        lemma_line_len_of_prefix(line.drop_first(), tail);
    }
}

/// A request line of three tokens is read as those tokens, whatever
/// whitespace stands around them and whatever follows the line feed.
pub proof fn lemma_request_line(
    lead: Seq<char>,
    method: Seq<char>,
    gap1: Seq<char>,
    target: Seq<char>,
    gap2: Seq<char>,
    version: Seq<char>,
    trail: Seq<char>,
    rest: Seq<char>,
)
    requires
        is_token(method),
        is_token(target),
        is_token(version),
        all_whitespace(lead),
        all_whitespace(gap1) && gap1.len() > 0,
        all_whitespace(gap2) && gap2.len() > 0,
        all_whitespace(trail),
        forall|i: int|
            0 <= i < (lead + method + gap1 + target + gap2 + version + trail).len() ==> (lead
                + method + gap1 + target + gap2 + version + trail)[i] != '\n',
    ensures
        tokens(
            first_line(lead + method + gap1 + target + gap2 + version + trail + seq!['\n'] + rest),
        ) == seq![method, target, version],
        tokens(first_line(lead + method + gap1 + target + gap2 + version + trail)) == seq![
            method,
            target,
            version,
        ],
{
    let line = lead + method + gap1 + target + gap2 + version + trail;
    lemma_first_line_ignores_rest(line, rest);
    lemma_three_tokens(lead, method, gap1, target, gap2, version, trail);
}

/// The first line of `text`, up to its first line feed.
pub fn first_line_of(text: &str) -> (line: &str)
    ensures
        line@ == first_line(text@),
{
    let n: usize = text.unicode_len();
    let mut i: usize = 0;
    proof {
        assert(text@.subrange(0, n as int) =~= text@);
    }
    while i < n && text.get_char(i) != '\n'
        invariant
            n == text@.len(),
            i <= n,
            line_len(text@) == i + line_len(text@.subrange(i as int, n as int)),
        decreases n - i,
    {
        proof {
            let cur = text@.subrange(i as int, n as int);
            assert(cur[0] == text@[i as int]);
            assert(cur.drop_first() =~= text@.subrange(i + 1, n as int));
        }
        i += 1;
    }
    proof {
        let cur = text@.subrange(i as int, n as int);
        if i < n {
            assert(cur[0] == text@[i as int]);
        }
        assert(line_len(cur) == 0);
    }
    text.substring_char(0, i)
}

/// Splits `line` at whitespace: the maximal whitespace-free runs, in order.
pub fn split_whitespace(line: &str) -> (words: Vec<String>)
    ensures
        words@.len() == tokens(line@).len(),
        forall|k: int| 0 <= k < words@.len() ==> (#[trigger] words@[k])@ == tokens(line@)[k],
{
    let n: usize = line.unicode_len();
    let mut words: Vec<String> = Vec::new();
    let ghost mut found: Seq<Seq<char>> = Seq::empty();
    let mut i: usize = 0;
    proof {
        assert(line@.subrange(0, n as int) =~= line@);
    }
    while i < n
        invariant
            n == line@.len(),
            i <= n,
            words@.len() == found.len(),
            forall|k: int| 0 <= k < words@.len() ==> (#[trigger] words@[k])@ == found[k],
            tokens(line@) == found + tokens(line@.subrange(i as int, n as int)),
        decreases n - i,
    {
        let ghost cur = line@.subrange(i as int, n as int);
        assert(cur[0] == line@[i as int]);
        if char_is_whitespace(line.get_char(i)) {
            assert(cur.drop_first() =~= line@.subrange(i + 1, n as int));
            i += 1;
        } else {
            let mut j: usize = i + 1;
            assert(cur.drop_first() =~= line@.subrange(j as int, n as int));
            while j < n && !char_is_whitespace(line.get_char(j))
                invariant
                    n == line@.len(),
                    i < j <= n,
                    cur == line@.subrange(i as int, n as int),
                    word_len(cur) == (j - i) + word_len(line@.subrange(j as int, n as int)),
                decreases n - j,
            {
                proof {
                    let sub = line@.subrange(j as int, n as int);
                    assert(sub[0] == line@[j as int]);
                    assert(sub.drop_first() =~= line@.subrange(j + 1, n as int));
                }
                j += 1;
            }
            proof {
                let sub = line@.subrange(j as int, n as int);
                if j < n {
                    assert(sub[0] == line@[j as int]);
                }
                assert(word_len(sub) == 0);
                let w = word_len(cur) as int;
                assert(w == j - i);
                assert(cur.subrange(0, w) =~= line@.subrange(i as int, j as int));
                assert(cur.subrange(w, cur.len() as int) =~= sub);
                assert(tokens(cur) == seq![line@.subrange(i as int, j as int)] + tokens(sub));
                assert(found + tokens(cur) =~= found.push(line@.subrange(i as int, j as int))
                    + tokens(sub));
                found = found.push(line@.subrange(i as int, j as int));
            }
            let word = line.substring_char(i, j);
            words.push(String::from_str(word));
            i = j;
        }
    }
    proof {
        assert(tokens(line@.subrange(n as int, n as int)) =~= Seq::<Seq<char>>::empty());
        assert(found + Seq::<Seq<char>>::empty() =~= found);
    }
    words
}

/// A request line: method, target and protocol version.
pub struct HttpRequest {
    pub method: String,
    pub uri: String,
    pub http_version: String,
}

impl HttpRequest {
    /// Each field is a token: non-empty and free of whitespace.
    pub open spec fn wf(&self) -> bool {
        &&& is_token(self.method@)
        &&& is_token(self.uri@)
        &&& is_token(self.http_version@)
    }

    /// Reads the request line at the start of `request`. Only the first
    /// line counts; it must hold exactly three tokens.
    pub fn parse(request: &str) -> (parsed: Option<HttpRequest>)
        ensures
            parsed is Some <==> tokens(first_line(request@)).len() == 3,
            request@.len() == 0 ==> parsed is None,
            parsed matches Some(r) ==> {
                &&& r.method@ == tokens(first_line(request@))[0]
                &&& r.uri@ == tokens(first_line(request@))[1]
                &&& r.http_version@ == tokens(first_line(request@))[2]
                &&& r.wf()
            },
    {
        let line = first_line_of(request);
        let mut words = split_whitespace(line);
        if words.len() != 3 {
            return None;
        }
        proof {
            lemma_tokens_are_words(line@);
        }
        let http_version = words.pop().unwrap();
        let uri = words.pop().unwrap();
        let method = words.pop().unwrap();
        Some(HttpRequest { method, uri, http_version })
    }
}

} // verus!
