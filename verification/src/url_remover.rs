//! Removal of links from text.
//!
//! A link begins where one of `http://`, `https://` or `www.` stands, its
//! letters in either case, with at least one more character that is no white
//! space behind it, and runs on to the next white space or to the end.

use crate::text::chars_of;
use crate::text::is_same_letter;
use crate::text::is_space;
use crate::text::is_space_char;
use crate::text::same_letter;
use vstd::prelude::*;

verus! {

/// Whether `pattern` stands in `s` at `i`, its letters in either case.
pub open spec fn matches_at(s: Seq<char>, i: int, pattern: Seq<char>) -> bool {
    &&& 0 <= i
    &&& i + pattern.len() <= s.len()
    &&& forall|k: int| 0 <= k < pattern.len() ==> same_letter(#[trigger] s[i + k], pattern[k])
}

/// Whether `s` has `scheme` at `i` and, right behind it, a character that is
/// no white space.
pub open spec fn scheme_at(s: Seq<char>, i: int, scheme: Seq<char>) -> bool {
    &&& matches_at(s, i, scheme)
    &&& i + scheme.len() < s.len()
    &&& !is_space(s[i + scheme.len()])
}

/// The three ways a link begins.
pub open spec fn link_schemes() -> Seq<Seq<char>> {
    seq!["http://"@, "https://"@, "www."@]
}

/// Whether a link begins in `s` at `i`.
pub open spec fn url_at(s: Seq<char>, i: int) -> bool {
    ||| scheme_at(s, i, "http://"@)
    ||| scheme_at(s, i, "https://"@)
    ||| scheme_at(s, i, "www."@)
}

/// `s[i..]` without its links, where `in_url` says whether `i` lies inside a
/// link that began further left: white space is kept and ends a link, any
/// other character is kept unless it lies in a link.
pub open spec fn drop_urls(s: Seq<char>, i: int, in_url: bool) -> Seq<char>
    decreases s.len() - i,
{
    if i < 0 || i >= s.len() {
        Seq::empty()
    } else if is_space(s[i]) {
        seq![s[i]] + drop_urls(s, i + 1, false)
    } else if in_url || url_at(s, i) {
        drop_urls(s, i + 1, true)
    } else {
        seq![s[i]] + drop_urls(s, i + 1, false)
    }
}

/// `s` without its links; everything else, white space included, stays.
pub open spec fn without_urls(s: Seq<char>) -> Seq<char> {
    drop_urls(s, 0, false)
}

/// The words of `s`: its longest runs of characters that are no white space,
/// from left to right.
pub open spec fn words(s: Seq<char>) -> Seq<Seq<char>>
    decreases s.len(),
{
    if s.len() == 0 {
        Seq::empty()
    } else {
        let before = words(s.drop_last());
        if is_space(s.last()) {
            before
        } else if s.len() >= 2 && !is_space(s[s.len() - 2]) {
            before.drop_last().push(before.last().push(s.last()))
        } else {
            before.push(seq![s.last()])
        }
    }
}

/// The first index from `k` on at which a link begins in `w`, or the length
/// of `w` where none does.
pub open spec fn url_start(w: Seq<char>, k: int) -> int
    decreases w.len() - k,
{
    if k < 0 || k >= w.len() {
        w.len() as int
    } else if url_at(w, k) {
        k
    } else {
        url_start(w, k + 1)
    }
}

/// What is left of the word `w` when its first link and all behind it go.
pub open spec fn strip_url(w: Seq<char>) -> Seq<char> {
    w.take(url_start(w, 0))
}

/// The words `ws`, each without its link, those left out of which nothing
/// remains.
pub open spec fn strip_all(ws: Seq<Seq<char>>) -> Seq<Seq<char>>
    decreases ws.len(),
{
    if ws.len() == 0 {
        Seq::empty()
    } else if strip_url(ws.last()).len() > 0 {
        strip_all(ws.drop_last()).push(strip_url(ws.last()))
    } else {
        strip_all(ws.drop_last())
    }
}

/// The words `ws` in one line, a single space between neighbours.
pub open spec fn join(ws: Seq<Seq<char>>) -> Seq<char>
    decreases ws.len(),
{
    if ws.len() == 0 {
        Seq::empty()
    } else if ws.len() == 1 {
        ws[0]
    } else {
        join(ws.drop_last()) + seq![' '] + ws.last()
    }
}

/// `s` without its links and with its white space tidied: the words of `s`,
/// each cut where its first link begins, the empty ones dropped, the others
/// joined by single spaces.
pub open spec fn cleaned(s: Seq<char>) -> Seq<char> {
    join(strip_all(words(s)))
}

/// Removes links from text.
pub struct UrlRemover {
    http: Vec<char>,
    https: Vec<char>,
    www: Vec<char>,
}

impl UrlRemover {
    #[verifier::type_invariant]
    spec fn well_formed(self) -> bool {
        &&& self.http@ == "http://"@
        &&& self.https@ == "https://"@
        &&& self.www@ == "www."@
    }

    /// The ways a link begins that this remover looks for.
    pub closed spec fn schemes(&self) -> Seq<Seq<char>> {
        seq![self.http@, self.https@, self.www@]
    }

    /// A remover that looks for the three ways a link begins.
    pub fn new() -> (r: Self)
        ensures
            r.schemes() == link_schemes(),
    {
        let r = UrlRemover {
            http: chars_of("http://"),
            https: chars_of("https://"),
            www: chars_of("www."),
        };
        assert(r.schemes() =~= link_schemes());
        r
    }

    /// Whether a link begins at `i` in `chars[lo..hi]`, seen by itself.
    fn begins_url(&self, chars: &Vec<char>, lo: usize, hi: usize, i: usize) -> (b: bool)
        requires
            lo <= i < hi <= chars.len(),
        ensures
            b == url_at(chars@.subrange(lo as int, hi as int), i - lo),
    {
        proof {
            use_type_invariant(self);
        }
        has_scheme(chars, lo, hi, i, &self.http) || has_scheme(chars, lo, hi, i, &self.https)
            || has_scheme(chars, lo, hi, i, &self.www)
    }

    /// Removes every link from `text` and keeps the rest as it is.
    pub fn remove_urls(&self, text: &str) -> (r: String)
        ensures
            r@ == without_urls(text@),
    {
        let chars = chars_of(text);
        let n = chars.len();
        let mut out = String::new();
        let mut in_url = false;
        let mut i: usize = 0;
        assert(chars@.subrange(0, n as int) =~= chars@);
        while i < n
            invariant
                i <= n,
                n == chars.len(),
                chars@ == text@,
                chars@.subrange(0, n as int) == chars@,
                out@ + drop_urls(chars@, i as int, in_url) == without_urls(chars@),
            decreases n - i,
        {
            let c = chars[i];
            let ghost rest = drop_urls(chars@, i + 1, false);
            if is_space_char(c) {
                assert(out@.push(c) + rest =~= out@ + (seq![c] + rest));
                out.push(c);
                in_url = false;
            } else if in_url || self.begins_url(&chars, 0, n, i) {
                in_url = true;
            } else {
                assert(out@.push(c) + rest =~= out@ + (seq![c] + rest));
                out.push(c);
            }
            i += 1;
        }
        assert(out@ + Seq::<char>::empty() =~= out@);
        out
    }

    /// Removes every link from `text`, turns each run of white space into one
    /// space, and trims the result.
    pub fn clean_text(&self, text: &str) -> (r: String)
        ensures
            r@ == cleaned(text@),
    {
        let chars = chars_of(text);
        let n = chars.len();
        let mut out = String::new();
        let mut empty = true;
        let mut i: usize = 0;
        assert(chars@.take(0) =~= Seq::<char>::empty());
        while i < n
            invariant
                i <= n,
                n == chars.len(),
                chars@ == text@,
                i < n && !is_space(chars@[i as int]) ==> i == 0 || is_space(chars@[i - 1]),
                out@ == cleaned(chars@.take(i as int)),
                empty == (strip_all(words(chars@.take(i as int))).len() == 0),
            decreases n - i,
        {
            let ghost before = chars@.take(i as int);
            if is_space_char(chars[i]) {
                assert(chars@.take(i + 1).drop_last() =~= before);
                i += 1;
            } else {
                let mut e: usize = i + 1;
                while e < n && !is_space_char(chars[e])
                    invariant
                        i < e <= n,
                        n == chars.len(),
                        forall|j: int| i <= j < e ==> !is_space(#[trigger] chars@[j]),
                    decreases n - e,
                {
                    e += 1;
                }
                let ghost word = chars@.subrange(i as int, e as int);
                let mut k: usize = i;
                while k < e && !self.begins_url(&chars, i, e, k)
                    invariant
                        i <= k <= e <= n,
                        n == chars.len(),
                        word == chars@.subrange(i as int, e as int),
                        url_start(word, 0) == url_start(word, k - i),
                    decreases e - k,
                {
                    k += 1;
                }
                proof {
                    assert(before + word =~= chars@.take(e as int));
                    lemma_words_append(before, word);
                    let all = words(before).push(word);
                    assert(all.drop_last() =~= words(before));
                    assert(strip_url(word) =~= chars@.subrange(i as int, k as int));
                    if k > i {
                        let kept = strip_all(words(before));
                        assert(kept.push(strip_url(word)).drop_last() =~= kept);
                    }
                }
                if k > i {
                    if !empty {
                        out.push(' ');
                    }
                    let ghost start = out@;
                    let mut j: usize = i;
                    while j < k
                        invariant
                            i <= j <= k <= n,
                            n == chars.len(),
                            out@ == start + chars@.subrange(i as int, j as int),
                        decreases k - j,
                    {
                        out.push(chars[j]);
                        assert(chars@.subrange(i as int, j as int).push(chars@[j as int])
                            =~= chars@.subrange(i as int, j + 1));
                        j += 1;
                    }
                    empty = false;
                }
                i = e;
            }
        }
        assert(chars@.take(n as int) =~= chars@);
        out
    }
}

/// The words of a text that ends a word or is empty, followed by one more
/// word, are the words of that text and then that word.
pub proof fn lemma_words_append(p: Seq<char>, w: Seq<char>)
    requires
        p.len() == 0 || is_space(p.last()),
        w.len() > 0,
        forall|k: int| 0 <= k < w.len() ==> !is_space(#[trigger] w[k]),
    ensures
        words(p + w) == words(p).push(w),
    decreases w.len(),
{
    let s = p + w;
    assert(s.drop_last() =~= p + w.drop_last());
    assert(s.last() == w.last());
    assert(!is_space(w[w.len() - 1]));
    if w.len() == 1 {
        assert(p + w.drop_last() =~= p);
        assert(w =~= seq![w.last()]);
    } else {
        lemma_words_append(p, w.drop_last());
        assert(s[s.len() - 2] == w[w.len() - 2]);
        assert(words(p).push(w.drop_last()).drop_last() =~= words(p));
        assert(w.drop_last().push(w.last()) =~= w);
    }
}

/// Whether `chars[lo..hi]`, seen by itself, has `scheme` at `i` with a
/// character that is no white space behind it.
fn has_scheme(chars: &Vec<char>, lo: usize, hi: usize, i: usize, scheme: &Vec<char>) -> (b: bool)
    requires
        lo <= i < hi <= chars.len(),
    ensures
        b == scheme_at(chars@.subrange(lo as int, hi as int), i - lo, scheme@),
{
    let ghost w = chars@.subrange(lo as int, hi as int);
    let m = scheme.len();
    if m >= hi - i {
        return false;
    }
    let mut k: usize = 0;
    while k < m
        invariant
            k <= m,
            m == scheme.len(),
            lo <= i < hi <= chars.len(),
            m < hi - i,
            w == chars@.subrange(lo as int, hi as int),
            forall|j: int| 0 <= j < k ==> same_letter(#[trigger] w[i - lo + j], scheme@[j]),
        decreases m - k,
    {
        if !is_same_letter(chars[i + k], scheme[k]) {
            assert(!same_letter(w[i - lo + k], scheme@[k as int]));
            return false;
        }
        k += 1;
    }
    !is_space_char(chars[i + m])
}

} // verus!
