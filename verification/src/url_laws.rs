//! What holds of link removal: that cleaning is idempotent, and that it is
//! the removal of links followed by the tidying of white space.

use crate::text::is_space;
use crate::text::same_letter;
use crate::url_remover::cleaned;
use crate::url_remover::drop_urls;
use crate::url_remover::join;
use crate::url_remover::lemma_words_append;
use crate::url_remover::matches_at;
use crate::url_remover::scheme_at;
use crate::url_remover::strip_all;
use crate::url_remover::strip_url;
use crate::url_remover::url_at;
use crate::url_remover::url_start;
use crate::url_remover::without_urls;
use crate::url_remover::words;
use vstd::prelude::*;

verus! {

/// Whether `w` can be a word: not empty, and free of white space.
pub open spec fn is_word(w: Seq<char>) -> bool {
    &&& w.len() > 0
    &&& forall|k: int| 0 <= k < w.len() ==> !is_space(#[trigger] w[k])
}

/// Whether each of `ws` is a word in which no link begins.
pub open spec fn plain_words(ws: Seq<Seq<char>>) -> bool {
    forall|j: int| 0 <= j < ws.len() ==> is_word(#[trigger] ws[j]) && strip_url(ws[j]) == ws[j]
}

/// Every element of `words(s)` is a word, and there is one if `s` ends in a
/// character that is no white space.
pub proof fn lemma_words_are_words(s: Seq<char>)
    ensures
        forall|j: int| 0 <= j < words(s).len() ==> is_word(#[trigger] words(s)[j]),
        s.len() > 0 && !is_space(s.last()) ==> words(s).len() > 0,
    decreases s.len(),
{
    if s.len() > 0 {
        lemma_words_are_words(s.drop_last());
        let before = words(s.drop_last());
        if !is_space(s.last()) && s.len() >= 2 && !is_space(s[s.len() - 2]) {
            assert(s.drop_last().last() == s[s.len() - 2]);
            assert(is_word(before[before.len() - 1]));
        }
    }
}

/// From `k` on, no link begins in `w` before `url_start(w, k)`, and one does
/// there unless that is the end of `w`.
pub proof fn lemma_url_start(w: Seq<char>, k: int)
    requires
        0 <= k <= w.len(),
    ensures
        k <= url_start(w, k) <= w.len(),
        forall|j: int| k <= j < url_start(w, k) ==> !url_at(w, j),
        url_start(w, k) < w.len() ==> url_at(w, url_start(w, k)),
    decreases w.len() - k,
{
    if k < w.len() && !url_at(w, k) {
        lemma_url_start(w, k + 1);
    }
}

/// Where no link begins in `w` from `k` on, `url_start(w, k)` is the end.
proof fn lemma_url_start_end(w: Seq<char>, k: int)
    requires
        0 <= k <= w.len(),
        forall|j: int| k <= j < w.len() ==> !url_at(w, j),
    ensures
        url_start(w, k) == w.len(),
    decreases w.len() - k,
{
    if k < w.len() {
        lemma_url_start_end(w, k + 1);
    }
}

/// A link that begins in the first `m` characters of `w`, seen by
/// themselves, begins at the same place in `w`.
proof fn lemma_url_in_prefix(w: Seq<char>, m: int, j: int)
    requires
        0 <= m <= w.len(),
        url_at(w.take(m), j),
    ensures
        url_at(w, j),
{
    let p = w.take(m);
    let scheme = if scheme_at(p, j, "http://"@) {
        "http://"@
    } else if scheme_at(p, j, "https://"@) {
        "https://"@
    } else {
        "www."@
    };
    assert(scheme_at(p, j, scheme));
    assert forall|k: int| 0 <= k < scheme.len() implies same_letter(
        #[trigger] w[j + k],
        scheme[k],
    ) by {
        assert(p[j + k] == w[j + k]);
    }
    assert(p[j + scheme.len()] == w[j + scheme.len()]);
    assert(scheme_at(w, j, scheme));
}

/// What `strip_url` leaves of a word is a part of it in which no link begins.
pub proof fn lemma_strip_url(w: Seq<char>)
    ensures
        strip_url(w).len() <= w.len(),
        forall|k: int| 0 <= k < strip_url(w).len() ==> strip_url(w)[k] == w[k],
        strip_url(strip_url(w)) == strip_url(w),
{
    lemma_url_start(w, 0);
    let m = url_start(w, 0);
    let p = w.take(m);
    assert forall|j: int| 0 <= j < p.len() implies !url_at(p, j) by {
        if url_at(p, j) {
            lemma_url_in_prefix(w, m, j);
        }
    }
    lemma_url_start_end(p, 0);
    assert(p.take(p.len() as int) =~= p);
}

/// Of words, `strip_all` leaves words in which no link begins.
pub proof fn lemma_strip_all(ws: Seq<Seq<char>>)
    requires
        forall|j: int| 0 <= j < ws.len() ==> is_word(#[trigger] ws[j]),
    ensures
        plain_words(strip_all(ws)),
    decreases ws.len(),
{
    if ws.len() > 0 {
        lemma_strip_all(ws.drop_last());
        let w = ws.last();
        lemma_strip_url(w);
        assert(is_word(w));
        if strip_url(w).len() > 0 {
            assert forall|k: int| 0 <= k < strip_url(w).len() implies !is_space(
                #[trigger] strip_url(w)[k],
            ) by {
                assert(!is_space(w[k]));
            }
        }
    }
}

/// `strip_all` changes nothing in words in which no link begins.
pub proof fn lemma_strip_all_of_plain(ws: Seq<Seq<char>>)
    requires
        plain_words(ws),
    ensures
        strip_all(ws) == ws,
    decreases ws.len(),
{
    if ws.len() > 0 {
        lemma_strip_all_of_plain(ws.drop_last());
        assert(is_word(ws.last()));
        assert(ws.drop_last().push(ws.last()) =~= ws);
    }
}

/// Words that were joined come apart again as they were.
pub proof fn lemma_words_of_join(ws: Seq<Seq<char>>)
    requires
        forall|j: int| 0 <= j < ws.len() ==> is_word(#[trigger] ws[j]),
    ensures
        words(join(ws)) == ws,
    decreases ws.len(),
{
    if ws.len() == 1 {
        assert(is_word(ws[0]));
        lemma_words_append(Seq::empty(), ws[0]);
        assert(Seq::<char>::empty() + ws[0] =~= ws[0]);
        assert(Seq::<Seq<char>>::empty().push(ws[0]) =~= ws);
    } else if ws.len() >= 2 {
        lemma_words_of_join(ws.drop_last());
        let p = join(ws.drop_last()) + seq![' '];
        assert(p.drop_last() =~= join(ws.drop_last()));
        assert(is_space(p.last()));
        assert(is_word(ws.last()));
        lemma_words_append(p, ws.last());
        assert(ws.drop_last().push(ws.last()) =~= ws);
    }
}

/// Cleaning is idempotent: text that was cleaned is left as it is when it is
/// cleaned once more.
pub proof fn clean_is_idempotent(s: Seq<char>)
    ensures
        cleaned(cleaned(s)) == cleaned(s),
{
    let kept = strip_all(words(s));
    lemma_words_are_words(s);
    lemma_strip_all(words(s));
    lemma_words_of_join(kept);
    lemma_strip_all_of_plain(kept);
}

/// `s` with its white space tidied: its words, joined by single spaces.
pub open spec fn tidied(s: Seq<char>) -> Seq<char> {
    join(words(s))
}

/// White space in front of a text adds no word.
pub proof fn lemma_words_after_space(c: char, x: Seq<char>)
    requires
        is_space(c),
    ensures
        words(seq![c] + x) == words(x),
    decreases x.len(),
{
    let s = seq![c] + x;
    if x.len() == 0 {
        assert(s.drop_last() =~= Seq::<char>::empty());
        assert(words(s.drop_last()) =~= Seq::<Seq<char>>::empty());
    } else {
        assert(s.drop_last() =~= seq![c] + x.drop_last());
        lemma_words_after_space(c, x.drop_last());
        assert(s.last() == x.last());
        if x.len() >= 2 {
            assert(s[s.len() - 2] == x[x.len() - 2]);
        } else {
            assert(s[s.len() - 2] == c);
        }
    }
}

/// A word in front of a text that is empty or begins with white space is
/// the first word of the whole.
pub proof fn lemma_words_after_word(w: Seq<char>, x: Seq<char>)
    requires
        is_word(w),
        x.len() == 0 || is_space(x[0]),
    ensures
        words(w + x) == seq![w] + words(x),
    decreases x.len(),
{
    let s = w + x;
    if x.len() == 0 {
        assert(s =~= Seq::<char>::empty() + w);
        lemma_words_append(Seq::empty(), w);
        assert(words(x) =~= Seq::<Seq<char>>::empty());
        assert(Seq::<Seq<char>>::empty().push(w) =~= seq![w] + words(x));
    } else {
        assert(s.drop_last() =~= w + x.drop_last());
        lemma_words_after_word(w, x.drop_last());
        assert(s.last() == x.last());
        let before = words(x.drop_last());
        if is_space(x.last()) {
        } else if x.len() >= 2 && !is_space(x[x.len() - 2]) {
            assert(s[s.len() - 2] == x[x.len() - 2]);
            assert(x.drop_last().last() == x[x.len() - 2]);
            lemma_words_are_words(x.drop_last());
            assert(before.len() > 0);
            let all = seq![w] + before;
            assert(all.last() == before.last());
            assert(all.drop_last() =~= seq![w] + before.drop_last());
            assert(all.drop_last().push(all.last().push(x.last())) =~= seq![w]
                + before.drop_last().push(before.last().push(x.last())));
        } else {
            assert(x.len() >= 2);
            assert(s[s.len() - 2] == x[x.len() - 2]);
            assert((seq![w] + before).push(seq![x.last()]) =~= seq![w] + before.push(
                seq![x.last()],
            ));
        }
    }
}

/// What `strip_all` makes of the one word `w`.
pub open spec fn strip_one(w: Seq<char>) -> Seq<Seq<char>> {
    if strip_url(w).len() > 0 {
        seq![strip_url(w)]
    } else {
        Seq::empty()
    }
}

/// `strip_all` treats the first word by itself.
pub proof fn lemma_strip_all_front(w: Seq<char>, ws: Seq<Seq<char>>)
    ensures
        strip_all(seq![w] + ws) == strip_one(w) + strip_all(ws),
    decreases ws.len(),
{
    let all = seq![w] + ws;
    if ws.len() == 0 {
        assert(all.drop_last() =~= Seq::<Seq<char>>::empty());
        assert(all.last() == w);
        assert(strip_all(all.drop_last()) =~= Seq::<Seq<char>>::empty());
        assert(strip_all(ws) =~= Seq::<Seq<char>>::empty());
        assert(Seq::<Seq<char>>::empty().push(strip_url(w)) =~= seq![strip_url(w)] + strip_all(ws));
    } else {
        assert(all.drop_last() =~= seq![w] + ws.drop_last());
        assert(all.last() == ws.last());
        lemma_strip_all_front(w, ws.drop_last());
        let rest = strip_all(ws.drop_last());
        let last = strip_url(ws.last());
        if strip_url(w).len() > 0 {
            assert(strip_all(all.drop_last()) == seq![strip_url(w)] + rest);
            if last.len() > 0 {
                assert((seq![strip_url(w)] + rest).push(last) =~= seq![strip_url(w)] + rest.push(
                    last,
                ));
            }
        } else {
            assert(strip_all(all.drop_last()) == rest);
        }
    }
}

/// No character of the three ways a link begins is white space, nor is it
/// one in the other case.
proof fn lemma_scheme_chars(scheme: Seq<char>, k: int, c: char)
    requires
        scheme == "http://"@ || scheme == "https://"@ || scheme == "www."@,
        0 <= k < scheme.len(),
        same_letter(c, scheme[k]),
    ensures
        !is_space(c),
{
    reveal_strlit("http://");
    reveal_strlit("https://");
    reveal_strlit("www.");
}

/// What lies behind a text does not depend on the text: removing links from
/// `b` goes the same way when `a` stands in front of it.
pub proof fn lemma_drop_urls_shift(a: Seq<char>, b: Seq<char>, i: int, in_url: bool)
    requires
        0 <= i <= b.len(),
    ensures
        drop_urls(a + b, a.len() + i, in_url) == drop_urls(b, i, in_url),
    decreases b.len() - i,
{
    let s = a + b;
    let n = a.len() as int;
    if i < b.len() {
        assert(s[n + i] == b[i]);
        lemma_url_at_shift(a, b, i);
        lemma_drop_urls_shift(a, b, i + 1, false);
        lemma_drop_urls_shift(a, b, i + 1, true);
    }
}

/// Whether a link begins at a place in `b` does not depend on what stands in
/// front of `b`.
proof fn lemma_url_at_shift(a: Seq<char>, b: Seq<char>, i: int)
    requires
        0 <= i <= b.len(),
    ensures
        url_at(a + b, a.len() + i) == url_at(b, i),
{
    lemma_scheme_at_shift(a, b, i, "http://"@);
    lemma_scheme_at_shift(a, b, i, "https://"@);
    lemma_scheme_at_shift(a, b, i, "www."@);
}

proof fn lemma_scheme_at_shift(a: Seq<char>, b: Seq<char>, i: int, scheme: Seq<char>)
    requires
        0 <= i <= b.len(),
    ensures
        scheme_at(a + b, a.len() + i, scheme) == scheme_at(b, i, scheme),
{
    let s = a + b;
    let n = a.len() as int;
    if i + scheme.len() < b.len() {
        assert(s[n + i + scheme.len()] == b[i + scheme.len()]);
        if matches_at(b, i, scheme) {
            assert forall|k: int| 0 <= k < scheme.len() implies same_letter(
                #[trigger] s[n + i + k],
                scheme[k],
            ) by {
                assert(s[n + i + k] == b[i + k]);
            }
        }
        if matches_at(s, n + i, scheme) {
            assert forall|k: int| 0 <= k < scheme.len() implies same_letter(
                #[trigger] b[i + k],
                scheme[k],
            ) by {
                assert(s[n + i + k] == b[i + k]);
            }
        }
    }
}

/// In a text that is followed by white space or by nothing, a link begins
/// where it begins in the text taken by itself.
proof fn lemma_url_at_in_word(w: Seq<char>, x: Seq<char>, j: int)
    requires
        x.len() == 0 || is_space(x[0]),
        0 <= j < w.len(),
    ensures
        url_at(w + x, j) == url_at(w, j),
{
    lemma_scheme_at_in_word(w, x, j, "http://"@);
    lemma_scheme_at_in_word(w, x, j, "https://"@);
    lemma_scheme_at_in_word(w, x, j, "www."@);
}

proof fn lemma_scheme_at_in_word(w: Seq<char>, x: Seq<char>, j: int, scheme: Seq<char>)
    requires
        x.len() == 0 || is_space(x[0]),
        0 <= j < w.len(),
        scheme == "http://"@ || scheme == "https://"@ || scheme == "www."@,
    ensures
        scheme_at(w + x, j, scheme) == scheme_at(w, j, scheme),
{
    let s = w + x;
    let m = scheme.len() as int;
    if j + m < w.len() {
        assert(s[j + m] == w[j + m]);
        if matches_at(w, j, scheme) {
            assert forall|k: int| 0 <= k < m implies same_letter(#[trigger] s[j + k], scheme[k]) by {
                assert(s[j + k] == w[j + k]);
            }
        }
        if matches_at(s, j, scheme) {
            assert forall|k: int| 0 <= k < m implies same_letter(#[trigger] w[j + k], scheme[k]) by {
                assert(s[j + k] == w[j + k]);
            }
        }
    } else if scheme_at(s, j, scheme) {
        // the scheme, or the character behind it, would reach the white space
        let at = w.len() as int;
        assert(at < s.len());
        assert(s[at] == x[0]);
        if j + m == at {
            assert(is_space(s[j + m]));
        } else {
            let k = at - j;
            assert(same_letter(s[j + k], scheme[k]));
            lemma_scheme_chars(scheme, k, s[j + k]);
        }
    }
}

/// Inside a link, everything up to the next white space goes.
proof fn lemma_drop_urls_inside(s: Seq<char>, k: int, end: int)
    requires
        0 <= k <= end <= s.len(),
        forall|j: int| k <= j < end ==> !is_space(#[trigger] s[j]),
    ensures
        drop_urls(s, k, true) == drop_urls(s, end, true),
    decreases end - k,
{
    if k < end {
        lemma_drop_urls_inside(s, k + 1, end);
    }
}

/// Outside a link, everything stays up to the place where the next begins.
proof fn lemma_drop_urls_outside(s: Seq<char>, k: int, end: int)
    requires
        0 <= k <= end <= s.len(),
        forall|j: int| k <= j < end ==> !is_space(#[trigger] s[j]) && !url_at(s, j),
    ensures
        drop_urls(s, k, false) == s.subrange(k, end) + drop_urls(s, end, false),
    decreases end - k,
{
    if k < end {
        lemma_drop_urls_outside(s, k + 1, end);
        assert(!is_space(s[k]) && !url_at(s, k));
        assert(seq![s[k]] + (s.subrange(k + 1, end) + drop_urls(s, end, false)) =~= s.subrange(
            k,
            end,
        ) + drop_urls(s, end, false));
    } else {
        assert(s.subrange(k, end) + drop_urls(s, end, false) =~= drop_urls(s, end, false));
    }
}

/// Of a word that is followed by white space or by nothing, the removal of
/// links leaves what `strip_url` leaves, and goes on behind the word as if
/// it began there.
pub proof fn lemma_drop_urls_word(w: Seq<char>, x: Seq<char>)
    requires
        is_word(w),
        x.len() == 0 || is_space(x[0]),
    ensures
        without_urls(w + x) == strip_url(w) + without_urls(x),
{
    let s = w + x;
    let n = w.len() as int;
    let m = url_start(w, 0);
    lemma_url_start(w, 0);
    assert forall|j: int| 0 <= j < n implies !is_space(#[trigger] s[j]) by {
        assert(s[j] == w[j]);
    }
    assert forall|j: int| 0 <= j < m implies !is_space(#[trigger] s[j]) && !url_at(s, j) by {
        lemma_url_at_in_word(w, x, j);
    }
    lemma_drop_urls_outside(s, 0, m);
    assert(s.subrange(0, m) =~= strip_url(w));
    if m < n {
        lemma_url_at_in_word(w, x, m);
        assert(url_at(s, m));
        assert(drop_urls(s, m, false) == drop_urls(s, m + 1, true));
        lemma_drop_urls_inside(s, m + 1, n);
    }
    // behind the word stands white space or nothing, which ends any link
    assert(drop_urls(s, n, true) == drop_urls(s, n, false)) by {
        if n < s.len() {
            assert(s[n] == x[0]);
        }
    }
    lemma_drop_urls_shift(w, x, 0, false);
}

/// The length of the run of characters that are no white space with which
/// `s` begins.
pub open spec fn run_len(s: Seq<char>) -> nat
    decreases s.len(),
{
    if s.len() == 0 || is_space(s[0]) {
        0
    } else {
        1 + run_len(s.drop_first())
    }
}

/// `run_len(s)` is the place of the first white space in `s`, or its length.
pub proof fn lemma_run_len(s: Seq<char>)
    ensures
        run_len(s) <= s.len(),
        forall|j: int| 0 <= j < run_len(s) ==> !is_space(#[trigger] s[j]),
        run_len(s) < s.len() ==> is_space(s[run_len(s) as int]),
    decreases s.len(),
{
    if s.len() > 0 && !is_space(s[0]) {
        let t = s.drop_first();
        lemma_run_len(t);
        assert forall|j: int| 0 <= j < run_len(s) implies !is_space(#[trigger] s[j]) by {
            if j > 0 {
                assert(s[j] == t[j - 1]);
            }
        }
        if run_len(s) < s.len() {
            assert(s[run_len(s) as int] == t[run_len(t) as int]);
        }
    }
}

/// The words that are left when the links are removed from a text are the
/// words of the text, each without its link.
pub proof fn lemma_words_without_urls(s: Seq<char>)
    ensures
        words(without_urls(s)) == strip_all(words(s)),
    decreases s.len(),
{
    if s.len() == 0 {
        assert(words(s) =~= Seq::<Seq<char>>::empty());
    } else if is_space(s[0]) {
        let x = s.drop_first();
        assert(s =~= seq![s[0]] + x);
        lemma_drop_urls_shift(seq![s[0]], x, 0, false);
        assert(without_urls(s) == seq![s[0]] + without_urls(x));
        lemma_words_after_space(s[0], without_urls(x));
        lemma_words_after_space(s[0], x);
        lemma_words_without_urls(x);
    } else {
        lemma_run_len(s);
        let n = run_len(s) as int;
        let w = s.take(n);
        let x = s.skip(n);
        assert(s =~= w + x);
        assert(is_word(w));
        assert(x.len() > 0 ==> x[0] == s[n]);
        lemma_drop_urls_word(w, x);
        lemma_words_after_word(w, x);
        lemma_strip_all_front(w, words(x));
        lemma_words_without_urls(x);
        let left = strip_url(w);
        let behind = without_urls(x);
        if left.len() > 0 {
            lemma_strip_url(w);
            assert forall|k: int| 0 <= k < left.len() implies !is_space(#[trigger] left[k]) by {
                assert(!is_space(w[k]));
            }
            lemma_words_after_word(left, behind);
        } else {
            assert(left + behind =~= behind);
        }
    }
}

/// Cleaning is the removal of links followed by the tidying of white space.
pub proof fn clean_is_remove_then_tidy(s: Seq<char>)
    ensures
        cleaned(s) == tidied(without_urls(s)),
{
    lemma_words_without_urls(s);
}

/// Whether `r` is tidy: it neither begins nor ends with white space, and
/// all its white space is single spaces between other characters.
pub open spec fn is_tidy(r: Seq<char>) -> bool {
    &&& r.len() > 0 ==> !is_space(r[0]) && !is_space(r.last())
    &&& forall|i: int|
        0 <= i < r.len() && is_space(#[trigger] r[i]) ==> r[i] == ' ' && i + 1 < r.len()
            && !is_space(r[i + 1])
}

/// Words that are joined make a tidy line, which is empty only where there
/// are no words.
pub proof fn lemma_join_is_tidy(ws: Seq<Seq<char>>)
    requires
        forall|j: int| 0 <= j < ws.len() ==> is_word(#[trigger] ws[j]),
    ensures
        is_tidy(join(ws)),
        ws.len() > 0 ==> join(ws).len() > 0,
    decreases ws.len(),
{
    if ws.len() == 1 {
        assert(is_word(ws[0]));
    } else if ws.len() >= 2 {
        let init = join(ws.drop_last());
        let last = ws.last();
        let r = join(ws);
        lemma_join_is_tidy(ws.drop_last());
        assert(is_word(last));
        assert(r.len() == init.len() + 1 + last.len());
        assert(r[0] == init[0]);
        assert(r.last() == last.last());
        assert forall|i: int| 0 <= i < r.len() && is_space(#[trigger] r[i]) implies r[i] == ' ' && i
            + 1 < r.len() && !is_space(r[i + 1]) by {
            if i < init.len() {
                assert(r[i] == init[i]);
                assert(is_space(init[i]));
                assert(i + 1 < init.len());
                assert(r[i + 1] == init[i + 1]);
            } else if i == init.len() {
                assert(r[i + 1] == last[0]);
            } else {
                assert(r[i] == last[i - init.len() - 1]);
            }
        }
    }
}

/// What cleaning returns is tidy.
pub proof fn cleaned_is_tidy(s: Seq<char>)
    ensures
        is_tidy(cleaned(s)),
{
    lemma_words_are_words(s);
    lemma_strip_all(words(s));
    lemma_join_is_tidy(strip_all(words(s)));
}

/// Text in which no link begins is left as it is when links are removed,
/// and is only tidied when it is cleaned.
pub proof fn plain_text_is_kept(s: Seq<char>)
    requires
        forall|i: int| 0 <= i < s.len() ==> !url_at(s, i),
    ensures
        without_urls(s) == s,
        cleaned(s) == tidied(s),
{
    lemma_plain_text_from(s, 0);
    assert(s.skip(0) =~= s);
    clean_is_remove_then_tidy(s);
}

proof fn lemma_plain_text_from(s: Seq<char>, k: int)
    requires
        0 <= k <= s.len(),
        forall|i: int| 0 <= i < s.len() ==> !url_at(s, i),
    ensures
        drop_urls(s, k, false) == s.skip(k),
    decreases s.len() - k,
{
    if k < s.len() {
        lemma_plain_text_from(s, k + 1);
        assert(seq![s[k]] + s.skip(k + 1) =~= s.skip(k));
    } else {
        assert(s.skip(k) =~= Seq::<char>::empty());
    }
}

/// No link begins in words that are joined if none begins in any of them.
pub proof fn lemma_join_has_no_links(ws: Seq<Seq<char>>)
    requires
        plain_words(ws),
    ensures
        forall|i: int| 0 <= i < join(ws).len() ==> !url_at(join(ws), i),
    decreases ws.len(),
{
    if ws.len() == 1 {
        lemma_url_start(ws[0], 0);
        assert(strip_url(ws[0]) == ws[0]);
    } else if ws.len() >= 2 {
        let init = join(ws.drop_last());
        let last = ws.last();
        let r = join(ws);
        lemma_join_has_no_links(ws.drop_last());
        lemma_url_start(last, 0);
        assert(strip_url(last) == last);
        assert forall|i: int| 0 <= i < r.len() implies !url_at(r, i) by {
            if i < init.len() {
                assert(r =~= init + (seq![' '] + last));
                lemma_url_at_in_word(init, seq![' '] + last, i);
            } else if i == init.len() {
                if url_at(r, i) {
                    let scheme = if scheme_at(r, i, "http://"@) {
                        "http://"@
                    } else if scheme_at(r, i, "https://"@) {
                        "https://"@
                    } else {
                        "www."@
                    };
                    assert(scheme_at(r, i, scheme));
                    reveal_strlit("http://");
                    reveal_strlit("https://");
                    reveal_strlit("www.");
                    assert(same_letter(r[i + 0], scheme[0]));
                    lemma_scheme_chars(scheme, 0, r[i]);
                }
            } else {
                lemma_url_at_shift(init + seq![' '], last, i - init.len() - 1);
            }
        }
    }
}

/// No link begins anywhere in text that was cleaned.
pub proof fn cleaned_has_no_links(s: Seq<char>)
    ensures
        forall|i: int| 0 <= i < cleaned(s).len() ==> !url_at(cleaned(s), i),
        without_urls(cleaned(s)) == cleaned(s),
{
    lemma_words_are_words(s);
    lemma_strip_all(words(s));
    lemma_join_has_no_links(strip_all(words(s)));
    plain_text_is_kept(cleaned(s));
}

/// Whether `x` may begin a tidy text: it does not begin with white space,
/// and all its white space is single spaces, none next to another.
spec fn begins_tidy(x: Seq<char>) -> bool {
    &&& x.len() > 0 ==> !is_space(x[0])
    &&& forall|i: int|
        0 <= i < x.len() && is_space(#[trigger] x[i]) ==> x[i] == ' ' && (i + 1 < x.len()
            ==> !is_space(x[i + 1]))
}

/// Joining with one more character at the end of the last word.
proof fn lemma_join_longer_word(ws: Seq<Seq<char>>, c: char)
    requires
        ws.len() > 0,
    ensures
        join(ws.drop_last().push(ws.last().push(c))) == join(ws).push(c),
{
    let longer = ws.drop_last().push(ws.last().push(c));
    assert(longer.drop_last() =~= ws.drop_last());
    if ws.len() == 1 {
        assert(longer[0] == ws[0].push(c));
    } else {
        assert(join(ws.drop_last()) + seq![' '] + ws.last().push(c) =~= (join(ws.drop_last())
            + seq![' '] + ws.last()).push(c));
    }
}

/// Tidying gives back what may begin a tidy text, but for a space at its end.
proof fn lemma_tidied_prefix(x: Seq<char>)
    requires
        begins_tidy(x),
    ensures
        x.len() == 0 || !is_space(x.last()) ==> tidied(x) == x,
        x.len() > 0 && is_space(x.last()) ==> tidied(x).push(' ') == x,
    decreases x.len(),
{
    if x.len() > 0 {
        let p = x.drop_last();
        let c = x.last();
        assert forall|i: int| 0 <= i < p.len() && is_space(#[trigger] p[i]) implies p[i] == ' ' && (
        i + 1 < p.len() ==> !is_space(p[i + 1])) by {
            assert(p[i] == x[i]);
            if i + 1 < p.len() {
                assert(p[i + 1] == x[i + 1]);
            }
        }
        if p.len() > 0 {
            assert(p[0] == x[0]);
            assert(p.last() == x[x.len() - 2]);
        }
        lemma_tidied_prefix(p);
        lemma_words_are_words(p);
        assert(p.push(c) =~= x);
        if is_space(c) {
            assert(is_space(x[x.len() - 1]));
            assert(p.len() > 0);
            assert(!is_space(p.last())) by {
                if is_space(x[x.len() - 2]) {
                    assert(!is_space(x[x.len() - 2 + 1]));
                }
            }
        } else if p.len() > 0 && !is_space(p.last()) {
            lemma_join_longer_word(words(p), c);
        } else if p.len() > 0 {
            // `p` ends in the one space that parts the last word from the others
            let before = words(p);
            assert(is_space(x[x.len() - 2]));
            assert(p.len() >= 2) by {
                assert(!is_space(p[0]));
            }
            assert(!is_space(p.drop_last().last())) by {
                assert(p.drop_last().last() == x[x.len() - 3]);
                if is_space(x[x.len() - 3]) {
                    assert(!is_space(x[x.len() - 3 + 1]));
                }
            }
            lemma_words_are_words(p.drop_last());
            assert(before.len() > 0);
            assert(before.push(seq![c]).drop_last() =~= before);
            assert(join(before) + seq![' '] + seq![c] =~= join(before).push(' ').push(c));
        } else {
            assert(words(p) =~= Seq::<Seq<char>>::empty());
            assert(words(x) =~= seq![seq![c]]);
            assert(x =~= seq![c]);
        }
    }
}

/// Cleaning changes nothing in text that is tidy and holds no link. With
/// `cleaned_is_tidy` and `cleaned_has_no_links` this says which texts
/// cleaning leaves as they are: the tidy ones without links, and no others.
pub proof fn tidy_plain_text_is_unchanged(s: Seq<char>)
    requires
        is_tidy(s),
        forall|i: int| 0 <= i < s.len() ==> !url_at(s, i),
    ensures
        cleaned(s) == s,
{
    plain_text_is_kept(s);
    assert(begins_tidy(s));
    lemma_tidied_prefix(s);
}

} // verus!
