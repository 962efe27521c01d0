//! Character-level text handling: building strings, Unicode whitespace,
//! trimming, splitting into words and joining with a separator.
use vstd::prelude::*;
use vstd::string::*;

verus! {

/// `String::push`: appends the character `c` to `s`.
/// The contract claims that `c` lands at the end and nothing else changes.
#[verifier::external_body]
pub(crate) fn push_char(s: &mut String, c: char)
    ensures
        final(s)@ == old(s)@.push(c),
{
    s.push(c);
}

/// Appends the text `t` to `s`.
pub fn push_str(s: &mut String, t: &str)
    ensures
        final(s)@ == old(s)@ + t@,
{
    s.append(t);
}

/// The characters of `s`, in order.
pub fn chars_of(s: &str) -> (r: Vec<char>)
    ensures
        r@ == s@,
{
    let mut out: Vec<char> = Vec::new();
    for c in it: s.chars()
        invariant
            out@ == it.seq().take(it.index()),
            it.seq() == s@,
    {
        out.push(c);
    }
    out
}

/// A `String` holding exactly the characters `cs`.
pub fn string_from_chars(cs: &[char]) -> (r: String)
    ensures
        r@ == cs@,
{
    let mut out = String::new();
    let n = cs.len();
    for i in 0..n
        invariant
            n == cs@.len(),
            out@ == cs@.take(i as int),
    {
        push_char(&mut out, cs[i]);
        assert(cs@.take(i + 1) =~= cs@.take(i as int).push(cs@[i as int]));
    }
    assert(cs@.take(n as int) =~= cs@);
    out
}

/// Whether two character sequences are equal.
pub fn chars_eq(a: &[char], b: &[char]) -> (r: bool)
    ensures
        r == (a@ == b@),
{
    if a.len() != b.len() {
        return false;
    }
    let n = a.len();
    for i in 0..n
        invariant
            n == a@.len(),
            n == b@.len(),
            forall|j: int| 0 <= j < i ==> a@[j] == b@[j],
    {
        if a[i] != b[i] {
            return false;
        }
    }
    assert(a@ =~= b@);
    true
}

/// Whether two strings hold the same characters.
pub fn str_eq(a: &str, b: &str) -> (r: bool)
    ensures
        r == (a@ == b@),
{
    let x = chars_of(a);
    let y = chars_of(b);
    chars_eq(x.as_slice(), y.as_slice())
}

/// Unicode `White_Space`, the set that `char::is_whitespace` tests.
pub open spec fn is_whitespace(c: char) -> bool {
    let n = c as u32;
    ||| 0x9 <= n <= 0xD
    ||| n == 0x20
    ||| n == 0x85
    ||| n == 0xA0
    ||| n == 0x1680
    ||| 0x2000 <= n <= 0x200A
    ||| n == 0x2028
    ||| n == 0x2029
    ||| n == 0x202F
    ||| n == 0x205F
    ||| n == 0x3000
}

/// Whether `c` is Unicode whitespace.
pub fn char_is_whitespace(c: char) -> (b: bool)
    ensures
        b == is_whitespace(c),
{
    let n = c as u32;
    (0x9 <= n && n <= 0xD) || n == 0x20 || n == 0x85 || n == 0xA0 || n == 0x1680 || (0x2000 <= n
        && n <= 0x200A) || n == 0x2028 || n == 0x2029 || n == 0x202F || n == 0x205F || n == 0x3000
}

/// `s` without its leading whitespace.
pub open spec fn trim_start(s: Seq<char>) -> Seq<char>
    decreases s.len(),
{
    if s.len() > 0 && is_whitespace(s[0]) {
        trim_start(s.drop_first())
    } else {
        s
    }
}

/// `s` without its trailing whitespace.
pub open spec fn trim_end(s: Seq<char>) -> Seq<char>
    decreases s.len(),
{
    if s.len() > 0 && is_whitespace(s.last()) {
        trim_end(s.drop_last())
    } else {
        s
    }
}

/// `s` without leading and trailing whitespace (what `str::trim` gives).
pub open spec fn trim(s: Seq<char>) -> Seq<char> {
    trim_end(trim_start(s))
}

/// Number of leading characters of `s` that are not whitespace.
pub open spec fn word_len(s: Seq<char>) -> nat
    decreases s.len(),
{
    if s.len() > 0 && !is_whitespace(s[0]) {
        1 + word_len(s.drop_first())
    } else {
        0
    }
}

pub proof fn lemma_trim_start_len(s: Seq<char>)
    ensures
        trim_start(s).len() <= s.len(),
        trim_start(s).len() == 0 || !is_whitespace(trim_start(s)[0]),
    decreases s.len(),
{
    if s.len() > 0 && is_whitespace(s[0]) {
        lemma_trim_start_len(s.drop_first());
    }
}

pub proof fn lemma_word_len(s: Seq<char>)
    ensures
        word_len(s) <= s.len(),
        s.len() > 0 && !is_whitespace(s[0]) ==> word_len(s) >= 1,
        forall|i: int| 0 <= i < word_len(s) ==> !is_whitespace(#[trigger] s[i]),
        word_len(s) < s.len() ==> is_whitespace(s[word_len(s) as int]),
    decreases s.len(),
{
    if s.len() > 0 && !is_whitespace(s[0]) {
        lemma_word_len(s.drop_first());
        assert forall|i: int| 0 <= i < word_len(s) implies !is_whitespace(#[trigger] s[i]) by {
            if i > 0 {
                assert(s[i] == s.drop_first()[i - 1]);
            }
        }
    }
}

/// The whitespace-separated words of `s` (what `str::split_whitespace` yields):
/// skip leading whitespace; if nothing is left there are no words; otherwise
/// the longest run of non-whitespace is the first word, and the words of
/// what follows it come after.
pub open spec fn words(s: Seq<char>) -> Seq<Seq<char>>
    decreases s.len(),
{
    let t = trim_start(s);
    if t.len() == 0 {
        Seq::empty()
    } else {
        proof {
            lemma_trim_start_len(s);
            lemma_word_len(t);
        }
        seq![t.take(word_len(t) as int)] + words(t.skip(word_len(t) as int))
    }
}

/// Skipping a leading whitespace character does not change the words.
proof fn lemma_words_skip_whitespace(s: Seq<char>)
    requires
        s.len() > 0,
        is_whitespace(s[0]),
    ensures
        words(s) == words(s.drop_first()),
{
    assert(trim_start(s) == trim_start(s.drop_first()));
}

/// A word that starts at the front of `s` and ends at `j`.
proof fn lemma_words_take_word(s: Seq<char>, j: int)
    requires
        0 < j <= s.len(),
        forall|k: int| 0 <= k < j ==> !is_whitespace(#[trigger] s[k]),
        j == s.len() || is_whitespace(s[j]),
    ensures
        words(s) == seq![s.take(j)] + words(s.skip(j)),
{
    assert(trim_start(s) == s);
    lemma_word_len_exact(s, j);
}

proof fn lemma_word_len_exact(s: Seq<char>, j: int)
    requires
        0 <= j <= s.len(),
        forall|k: int| 0 <= k < j ==> !is_whitespace(#[trigger] s[k]),
        j == s.len() || is_whitespace(s[j]),
    ensures
        word_len(s) == j,
    decreases j,
{
    if j > 0 {
        assert(!is_whitespace(s[0]));
        let t = s.drop_first();
        assert forall|k: int| 0 <= k < j - 1 implies !is_whitespace(#[trigger] t[k]) by {
            assert(t[k] == s[k + 1]);
        }
        if j < s.len() {
            assert(t[j - 1] == s[j]);
        }
        lemma_word_len_exact(t, j - 1);
    } else {
        if s.len() > 0 {
            assert(is_whitespace(s[0]));
        }
    }
}

/// `s` trimmed at both ends.
pub fn trim_chars(s: &[char]) -> (r: Vec<char>)
    ensures
        r@ == trim(s@),
{
    let n = s.len();
    let mut a: usize = 0;
    assert(s@.skip(0) =~= s@);
    while a < n && char_is_whitespace(s[a])
        invariant
            n == s@.len(),
            a <= n,
            trim_start(s@) == trim_start(s@.skip(a as int)),
        decreases n - a,
    {
        assert(s@.skip(a as int).drop_first() =~= s@.skip(a + 1));
        a = a + 1;
    }
    assert(trim_start(s@.skip(a as int)) == s@.skip(a as int));
    let ghost t = s@.skip(a as int);
    let mut b: usize = n;
    while b > a && char_is_whitespace(s[b - 1])
        invariant
            n == s@.len(),
            a <= b <= n,
            t == s@.skip(a as int),
            trim_end(t) == trim_end(s@.subrange(a as int, b as int)),
        decreases b - a,
    {
        assert(s@.subrange(a as int, b as int).drop_last() =~= s@.subrange(a as int, b - 1));
        b = b - 1;
    }
    assert(trim_end(s@.subrange(a as int, b as int)) == s@.subrange(a as int, b as int));
    let mut out: Vec<char> = Vec::new();
    let mut i = a;
    while i < b
        invariant
            n == s@.len(),
            a <= i <= b <= n,
            out@ == s@.subrange(a as int, i as int),
        decreases b - i,
    {
        out.push(s[i]);
        assert(out@ =~= s@.subrange(a as int, i + 1));
        i = i + 1;
    }
    out
}

/// The words of `s`, each as a `String`.
pub fn split_words(s: &[char]) -> (r: Vec<String>)
    ensures
        r@.len() == words(s@).len(),
        forall|i: int| 0 <= i < r@.len() ==> #[trigger] r@[i]@ == words(s@)[i],
{
    let n = s.len();
    let mut out: Vec<String> = Vec::new();
    let ghost done: Seq<Seq<char>> = Seq::empty();
    let mut i: usize = 0;
    assert(s@.skip(0) =~= s@);
    while i < n
        invariant
            n == s@.len(),
            i <= n,
            out@.len() == done.len(),
            forall|k: int| 0 <= k < out@.len() ==> #[trigger] out@[k]@ == done[k],
            words(s@) == done + words(s@.skip(i as int)),
        decreases n - i,
    {
        if char_is_whitespace(s[i]) {
            proof {
                lemma_words_skip_whitespace(s@.skip(i as int));
                assert(s@.skip(i as int).drop_first() =~= s@.skip(i + 1));
            }
            i = i + 1;
        } else {
            let mut j = i + 1;
            while j < n && !char_is_whitespace(s[j])
                invariant
                    n == s@.len(),
                    i < j <= n,
                    forall|k: int| i <= k < j ==> !is_whitespace(#[trigger] s@[k]),
                decreases n - j,
            {
                j = j + 1;
            }
            let word = string_from_chars(&s[i..j]);
            proof {
                let x = s@.skip(i as int);
                assert forall|k: int| 0 <= k < j - i implies !is_whitespace(#[trigger] x[k]) by {
                    assert(x[k] == s@[i + k]);
                }
                if j < n {
                    assert(x[j - i] == s@[j as int]);
                }
                lemma_words_take_word(x, j - i);
                assert(x.take(j - i) =~= s@.subrange(i as int, j as int));
                assert(x.skip(j - i) =~= s@.skip(j as int));
                assert(done.push(s@.subrange(i as int, j as int)) + words(s@.skip(j as int)) =~= done
                    + (seq![s@.subrange(i as int, j as int)] + words(s@.skip(j as int))));
                done = done.push(s@.subrange(i as int, j as int));
            }
            out.push(word);
            i = j;
        }
    }
    proof {
        assert(s@.skip(n as int) =~= Seq::<char>::empty());
        assert(trim_start(Seq::<char>::empty()) == Seq::<char>::empty());
        assert(done + Seq::<Seq<char>>::empty() =~= done);
    }
    out
}

proof fn lemma_trim_end(s: Seq<char>)
    ensures
        trim_end(s).len() <= s.len(),
        forall|i: int| 0 <= i < trim_end(s).len() ==> #[trigger] trim_end(s)[i] == s[i],
        trim_end(s).len() == 0 || !is_whitespace(trim_end(s).last()),
    decreases s.len(),
{
    if s.len() > 0 && is_whitespace(s.last()) {
        lemma_trim_end(s.drop_last());
        assert forall|i: int| 0 <= i < trim_end(s).len() implies #[trigger] trim_end(s)[i] == s[i] by {
            assert(trim_end(s)[i] == s.drop_last()[i]);
        }
    }
}

/// Law: trimming twice is trimming once (a message trimmed on arrival and
/// again before dispatch is read the same way).
pub proof fn law_trim_is_idempotent(s: Seq<char>)
    ensures
        trim(trim(s)) == trim(s),
{
    let u = trim_start(s);
    let v = trim_end(u);
    lemma_trim_start_len(s);
    lemma_trim_end(u);
    if v.len() > 0 {
        assert(v[0] == u[0]);
    }
    assert(trim_start(v) == v);
    assert(trim_end(v) == v);
}

/// Law: every word is non-empty and holds no whitespace.
pub proof fn law_words_are_nonempty_without_whitespace(s: Seq<char>)
    ensures
        forall|i: int| 0 <= i < words(s).len() ==> #[trigger] words(s)[i].len() > 0,
        forall|i: int, j: int|
            0 <= i < words(s).len() && 0 <= j < words(s)[i].len() ==> !is_whitespace(
                #[trigger] words(s)[i][j],
            ),
    decreases s.len(),
{
    let t = trim_start(s);
    lemma_trim_start_len(s);
    if t.len() > 0 {
        lemma_word_len(t);
        let w = t.take(word_len(t) as int);
        let rest = t.skip(word_len(t) as int);
        law_words_are_nonempty_without_whitespace(rest);
        assert(words(s) == seq![w] + words(rest));
        assert forall|i: int| 0 <= i < words(s).len() implies #[trigger] words(s)[i].len() > 0 by {
            if i > 0 {
                assert(words(s)[i] == words(rest)[i - 1]);
            }
        }
        assert forall|i: int, j: int|
            0 <= i < words(s).len() && 0 <= j < words(s)[i].len() implies !is_whitespace(
                #[trigger] words(s)[i][j],
            ) by {
            if i > 0 {
                assert(words(s)[i] == words(rest)[i - 1]);
            } else {
                assert(words(s)[i] == w);
                assert(w[j] == t[j]);
            }
        }
    }
}

/// `parts` joined with `sep` between consecutive parts.
pub open spec fn join_with(parts: Seq<Seq<char>>, sep: Seq<char>) -> Seq<char>
    decreases parts.len(),
{
    if parts.len() == 0 {
        Seq::empty()
    } else if parts.len() == 1 {
        parts[0]
    } else {
        join_with(parts.drop_last(), sep) + sep + parts.last()
    }
}

/// The strings in `parts` joined with `sep` between consecutive ones.
pub fn join_strings(parts: &Vec<String>, sep: &str) -> (r: String)
    ensures
        r@ == join_with(parts@.map_values(|p: String| p@), sep@),
{
    let ghost views = parts@.map_values(|p: String| p@);
    let mut out = String::new();
    let n = parts.len();
    for i in 0..n
        invariant
            n == parts@.len(),
            views == parts@.map_values(|p: String| p@),
            out@ == join_with(views.take(i as int), sep@),
    {
        assert(views.take(i + 1).drop_last() =~= views.take(i as int));
        if i != 0 {
            push_str(&mut out, sep);
        }
        push_str(&mut out, parts[i].as_str());
        proof {
            if i == 0 {
                assert(out@ =~= views.take(1)[0]);
            }
        }
    }
    assert(views.take(n as int) =~= views);
    out
}

/// Law: joining one more part adds the separator and that part at the
/// end (just the part when there was none before).
pub proof fn law_join_appends_last(parts: Seq<Seq<char>>, sep: Seq<char>, x: Seq<char>)
    ensures
        join_with(parts.push(x), sep) == if parts.len() == 0 {
            x
        } else {
            join_with(parts, sep) + sep + x
        },
{
    assert(parts.push(x).drop_last() =~= parts);
    if parts.len() == 0 {
        assert(parts.push(x)[0] == x);
    }
}

} // verus!
