use vstd::prelude::*;

verus! {

/// The characters that `char::is_whitespace` accepts: Unicode's White_Space property.
pub open spec fn is_space(c: char) -> bool {
    ('\u{9}' <= c && c <= '\u{d}') || c == ' ' || c == '\u{85}' || c == '\u{a0}'
        || c == '\u{1680}' || ('\u{2000}' <= c && c <= '\u{200a}') || c == '\u{2028}'
        || c == '\u{2029}' || c == '\u{202f}' || c == '\u{205f}' || c == '\u{3000}'
}

/// The maximal runs of non-space characters of `s`, in order.
pub open spec fn words_of(s: Seq<char>) -> Seq<Seq<char>>
    decreases s.len(),
{
    if s.len() == 0 {
        seq![]
    } else {
        let p = s.drop_last();
        let c = s.last();
        let ws = words_of(p);
        if is_space(c) {
            ws
        } else if p.len() > 0 && !is_space(p.last()) {
            ws.update(ws.len() - 1, ws.last().push(c))
        } else {
            ws.push(seq![c])
        }
    }
}

/// A word that splitting can give back whole: not empty, no space in it.
pub open spec fn is_plain_word(w: Seq<char>) -> bool {
    w.len() > 0 && forall|i: int| 0 <= i < w.len() ==> !is_space(#[trigger] w[i])
}

/// The words joined by single spaces.
pub open spec fn join_words(ws: Seq<Seq<char>>) -> Seq<char>
    decreases ws.len(),
{
    if ws.len() == 0 {
        seq![]
    } else if ws.len() == 1 {
        ws[0]
    } else {
        join_words(ws.drop_last()) + seq![' '] + ws.last()
    }
}

/// Relies on `str::split_whitespace`: the non-empty runs between whitespace characters.
#[verifier::external_body]
pub(crate) fn split_words(s: &str) -> (r: Vec<String>)
    ensures
        r@.map_values(|w: String| w@) == words_of(s@),
{
    s.split_whitespace().map(|w| w.to_string()).collect()
}

proof fn lemma_words_of_append_word(a: Seq<char>, w: Seq<char>, n: int)
    requires
        a.len() == 0 || is_space(a.last()),
        is_plain_word(w),
        1 <= n <= w.len(),
    ensures
        words_of(a + w.subrange(0, n)) == words_of(a).push(w.subrange(0, n)),
    decreases n,
{
    let s = a + w.subrange(0, n);
    assert(s.drop_last() =~= a + w.subrange(0, n - 1));
    assert(s.last() == w[n - 1]);
    if n == 1 {
        assert(a + w.subrange(0, 0) =~= a);
        assert(w.subrange(0, 1) =~= seq![w[0]]);
    } else {
        lemma_words_of_append_word(a, w, n - 1);
        assert((a + w.subrange(0, n - 1)).last() == w[n - 2]);
        assert(w.subrange(0, n - 1).push(w[n - 1]) =~= w.subrange(0, n));
        let ws = words_of(a).push(w.subrange(0, n - 1));
        assert(ws.update(ws.len() - 1, ws.last().push(w[n - 1])) =~= words_of(a).push(
            w.subrange(0, n),
        ));
    }
}

/// Splitting words joined by single spaces gives the words back.
pub proof fn lemma_split_join(ws: Seq<Seq<char>>)
    requires
        forall|k: int| 0 <= k < ws.len() ==> is_plain_word(#[trigger] ws[k]),
    ensures
        words_of(join_words(ws)) == ws,
    decreases ws.len(),
{
    if ws.len() == 0 {
        assert(words_of(join_words(ws)) =~= ws);
    } else if ws.len() == 1 {
        let w = ws[0];
        lemma_words_of_append_word(seq![], w, w.len() as int);
        assert(Seq::<char>::empty() + w.subrange(0, w.len() as int) =~= w);
        assert(words_of(Seq::<char>::empty()) =~= seq![]);
        assert(seq![].push(w) =~= ws);
    } else {
        let init = ws.drop_last();
        let w = ws.last();
        assert(forall|k: int| 0 <= k < init.len() ==> #[trigger] init[k] == ws[k]);
        lemma_split_join(init);
        let a = join_words(init) + seq![' '];
        assert(a.drop_last() =~= join_words(init));
        assert(words_of(a) == words_of(join_words(init)));
        lemma_words_of_append_word(a, w, w.len() as int);
        assert(w.subrange(0, w.len() as int) =~= w);
        assert(init.push(w) =~= ws);
    }
}

} // verus!
