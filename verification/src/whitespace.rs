use vstd::prelude::*;
use vstd::std_specs::iter::IteratorSpec;

verus! {

/// The Unicode `White_Space` property (PropList.txt), which is what
/// `char::is_whitespace` and `str::split_whitespace` test.
pub open spec fn is_white_space(c: char) -> bool {
    let u = c as u32;
    ||| 0x9 <= u <= 0xd
    ||| u == 0x20
    ||| u == 0x85
    ||| u == 0xa0
    ||| u == 0x1680
    ||| 0x2000 <= u <= 0x200a
    ||| u == 0x2028
    ||| u == 0x2029
    ||| u == 0x202f
    ||| u == 0x205f
    ||| u == 0x3000
}

/// Scanning `s` from the left: the words completed so far, and the word
/// being read.
pub open spec fn split_state(s: Seq<char>) -> (Seq<Seq<char>>, Seq<char>)
    decreases s.len(),
{
    if s.len() == 0 {
        (Seq::empty(), Seq::empty())
    } else {
        let (done, cur) = split_state(s.drop_last());
        let c = s.last();
        if is_white_space(c) {
            if cur.len() > 0 {
                (done.push(cur), Seq::empty())
            } else {
                (done, cur)
            }
        } else {
            (done, cur.push(c))
        }
    }
}

/// The maximal runs of non-white-space characters of `s`, in order: what
/// `s.split_whitespace()` yields.
pub open spec fn words(s: Seq<char>) -> Seq<Seq<char>> {
    let (done, cur) = split_state(s);
    if cur.len() > 0 {
        done.push(cur)
    } else {
        done
    }
}

/// The words of every text, one text after another.
pub open spec fn words_of_all(texts: Seq<Seq<char>>) -> Seq<Seq<char>>
    decreases texts.len(),
{
    if texts.len() == 0 {
        Seq::empty()
    } else {
        words_of_all(texts.drop_last()) + words(texts.last())
    }
}

/// The words separated by single spaces: what `words.join(" ")` gives.
pub open spec fn joined(ws: Seq<Seq<char>>) -> Seq<char>
    decreases ws.len(),
{
    if ws.len() == 0 {
        Seq::empty()
    } else if ws.len() == 1 {
        ws[0]
    } else {
        joined(ws.drop_last()) + seq![' '] + ws.last()
    }
}

/// `s` with every run of white space replaced by one space, and white space
/// at either end removed.
pub open spec fn normalized(s: Seq<char>) -> Seq<char> {
    joined(words(s))
}

/// `s` has no white space.
pub open spec fn no_white_space(s: Seq<char>) -> bool {
    forall|i: int| 0 <= i < s.len() ==> !is_white_space(#[trigger] s[i])
}

/// Every word is non-empty and free of white space.
pub open spec fn proper_words(ws: Seq<Seq<char>>) -> bool {
    forall|i: int| 0 <= i < ws.len() ==> (#[trigger] ws[i]).len() > 0 && no_white_space(ws[i])
}

proof fn lemma_split_state_proper(s: Seq<char>)
    ensures
        proper_words(split_state(s).0),
        no_white_space(split_state(s).1),
    decreases s.len(),
{
    if s.len() > 0 {
        lemma_split_state_proper(s.drop_last());
    }
}

/// The words of a text are non-empty and free of white space.
pub proof fn lemma_words_proper(s: Seq<char>)
    ensures
        proper_words(words(s)),
{
    lemma_split_state_proper(s);
}

/// Reading characters without white space only extends the current word.
proof fn lemma_split_state_append_word(s: Seq<char>, t: Seq<char>)
    requires
        no_white_space(t),
    ensures
        split_state(s + t) == (split_state(s).0, split_state(s).1 + t),
    decreases t.len(),
{
    if t.len() == 0 {
        assert(s + t =~= s);
        assert(split_state(s).1 + t =~= split_state(s).1);
    } else {
        lemma_split_state_append_word(s, t.drop_last());
        assert((s + t).drop_last() =~= s + t.drop_last());
        assert(!is_white_space(t[t.len() - 1]));
        assert(split_state(s).1 + t =~= (split_state(s).1 + t.drop_last()).push(t.last()));
    }
}

proof fn lemma_split_state_joined(ws: Seq<Seq<char>>)
    requires
        ws.len() > 0,
        proper_words(ws),
    ensures
        split_state(joined(ws)) == (ws.drop_last(), ws.last()),
    decreases ws.len(),
{
    if ws.len() == 1 {
        lemma_split_state_append_word(Seq::empty(), ws[0]);
        assert(Seq::<char>::empty() + ws[0] =~= ws[0]);
        assert(ws.drop_last() =~= Seq::<Seq<char>>::empty());
    } else {
        let front = ws.drop_last();
        assert(proper_words(front)) by {
            assert forall|i: int| 0 <= i < front.len() implies (#[trigger] front[i]).len() > 0 && no_white_space(front[i]) by {
                assert(front[i] == ws[i]);
            }
        }
        lemma_split_state_joined(front);
        let j = joined(front);
        let spaced = j + seq![' '];
        assert(spaced.drop_last() =~= j);
        assert(is_white_space(' '));
        assert(split_state(spaced) == (front.drop_last().push(front.last()), Seq::<char>::empty()));
        assert(front.drop_last().push(front.last()) =~= front);
        lemma_split_state_append_word(spaced, ws.last());
        assert(Seq::<char>::empty() + ws.last() =~= ws.last());
    }
}

/// Splitting words that were joined by single spaces gives the words back.
pub proof fn law_words_of_joined(ws: Seq<Seq<char>>)
    requires
        proper_words(ws),
    ensures
        words(joined(ws)) == ws,
{
    if ws.len() > 0 {
        lemma_split_state_joined(ws);
        assert(ws.drop_last().push(ws.last()) =~= ws);
    }
}

/// Normalizing white space twice is the same as normalizing it once.
pub proof fn law_normalize_idempotent(s: Seq<char>)
    ensures
        normalized(normalized(s)) == normalized(s),
{
    lemma_words_proper(s);
    law_words_of_joined(words(s));
}

/// Text in normal form: it neither begins nor ends with white space, and its
/// only white space is single spaces between other characters.
pub open spec fn single_spaced(t: Seq<char>) -> bool {
    &&& t.len() > 0 ==> !is_white_space(t[0]) && !is_white_space(t.last())
    &&& forall|i: int|
        0 <= i < t.len() && is_white_space(#[trigger] t[i]) ==> {
            &&& t[i] == ' '
            &&& 0 < i < t.len() - 1
            &&& !is_white_space(t[i - 1])
            &&& !is_white_space(t[i + 1])
        }
}

proof fn lemma_joined_single_spaced(ws: Seq<Seq<char>>)
    requires
        proper_words(ws),
    ensures
        single_spaced(joined(ws)),
        ws.len() > 0 ==> joined(ws).len() > 0,
    decreases ws.len(),
{
    if ws.len() == 1 {
        assert(ws[0].len() > 0 && no_white_space(ws[0]));
    } else if ws.len() > 1 {
        let front = ws.drop_last();
        assert(proper_words(front)) by {
            assert forall|i: int| 0 <= i < front.len() implies (#[trigger] front[i]).len() > 0 && no_white_space(front[i]) by {
                assert(front[i] == ws[i]);
            }
        }
        lemma_joined_single_spaced(front);
        let j = joined(front);
        let w = ws.last();
        assert(w.len() > 0 && no_white_space(w));
        let t = joined(ws);
        assert(t == j + seq![' '] + w);
        assert(is_white_space(' '));
        assert(t[0] == j[0]);
        assert(t.last() == w.last());
        assert forall|i: int| 0 <= i < t.len() && is_white_space(#[trigger] t[i]) implies {
            &&& t[i] == ' '
            &&& 0 < i < t.len() - 1
            &&& !is_white_space(t[i - 1])
            &&& !is_white_space(t[i + 1])
        } by {
            if i < j.len() {
                assert(t[i] == j[i]);
                assert(is_white_space(j[i]));
                assert(t[i - 1] == j[i - 1]);
                assert(t[i + 1] == j[i + 1]);
            } else if i == j.len() {
                assert(t[i - 1] == j.last());
                assert(t[i + 1] == w[0]);
            } else {
                assert(t[i] == w[i - j.len() - 1]);
            }
        }
    }
}

/// Joining proper words gives a non-empty text exactly when there are words.
pub proof fn lemma_joined_nonempty(ws: Seq<Seq<char>>)
    requires
        proper_words(ws),
    ensures
        ws.len() > 0 ==> joined(ws).len() > 0,
{
    lemma_joined_single_spaced(ws);
}

/// The words of several texts are non-empty and free of white space.
pub proof fn lemma_words_of_all_proper(texts: Seq<Seq<char>>)
    ensures
        proper_words(words_of_all(texts)),
    decreases texts.len(),
{
    if texts.len() > 0 {
        lemma_words_of_all_proper(texts.drop_last());
        lemma_words_proper(texts.last());
        let a = words_of_all(texts.drop_last());
        let b = words(texts.last());
        assert forall|i: int| 0 <= i < (a + b).len() implies (#[trigger] (a + b)[i]).len() > 0 && no_white_space((a + b)[i]) by {
            if i < a.len() {
                assert((a + b)[i] == a[i]);
            } else {
                assert((a + b)[i] == b[i - a.len()]);
            }
        }
    }
}

/// Normalized text is single spaced.
pub proof fn law_normalized_single_spaced(s: Seq<char>)
    ensures
        single_spaced(normalized(s)),
{
    lemma_words_proper(s);
    lemma_joined_single_spaced(words(s));
}

/// Once the scan has no word in progress, reading more text only appends
/// that text's words.
proof fn lemma_split_state_after_break(x: Seq<char>, b: Seq<char>)
    requires
        split_state(x).1.len() == 0,
    ensures
        split_state(x + b) == (split_state(x).0 + split_state(b).0, split_state(b).1),
    decreases b.len(),
{
    if b.len() == 0 {
        assert(x + b =~= x);
        assert(split_state(x).0 + Seq::<Seq<char>>::empty() =~= split_state(x).0);
        assert(split_state(x).1 =~= Seq::<char>::empty());
    } else {
        lemma_split_state_after_break(x, b.drop_last());
        assert((x + b).drop_last() =~= x + b.drop_last());
        assert((x + b).last() == b.last());
        let d = split_state(x).0;
        let (done, cur) = split_state(b.drop_last());
        assert((d + done).push(cur) =~= d + done.push(cur));
    }
}

/// Every white-space character separates words: the words of `a`, then a
/// white-space character, then `b` are the words of `a` followed by the
/// words of `b`.
pub proof fn law_white_space_separates_words(a: Seq<char>, c: char, b: Seq<char>)
    requires
        is_white_space(c),
    ensures
        words(a + seq![c] + b) == words(a) + words(b),
{
    let x = a + seq![c];
    assert(x.drop_last() =~= a);
    assert(x.last() == c);
    assert(split_state(x).0 == words(a));
    assert(split_state(x).1.len() == 0);
    lemma_split_state_after_break(x, b);
    let (done, cur) = split_state(b);
    if cur.len() > 0 {
        assert((words(a) + done).push(cur) =~= words(a) + done.push(cur));
    }
}

/// A run of characters without white space is one word; the empty text has
/// none.
pub proof fn law_word_without_white_space(t: Seq<char>)
    requires
        no_white_space(t),
    ensures
        words(t) == if t.len() == 0 { Seq::<Seq<char>>::empty() } else { seq![t] },
{
    lemma_split_state_append_word(Seq::empty(), t);
    assert(Seq::<char>::empty() + t =~= t);
    assert(split_state(Seq::<char>::empty()) == (Seq::<Seq<char>>::empty(), Seq::<char>::empty()));
    assert(Seq::<char>::empty() + t =~= t);
    if t.len() > 0 {
        assert(Seq::<Seq<char>>::empty().push(t) =~= seq![t]);
    }
}

/// Calls `char::is_whitespace`, which is documented to test the Unicode
/// `White_Space` property.
#[verifier::external_body]
fn char_is_whitespace(c: char) -> (r: bool)
    ensures
        r == is_white_space(c),
{
    c.is_whitespace()
}

/// Calls `String::push`, which appends one character.
#[verifier::external_body]
pub(crate) fn push_char(s: &mut String, c: char)
    ensures
        final(s)@ == old(s)@.push(c),
{
    s.push(c)
}

/// The words of `s`, as `s.split_whitespace()` yields them.
pub fn split_words(s: &str) -> (r: Vec<String>)
    ensures
        r.deep_view() == words(s@),
{
    let ghost all = s@;
    let mut chars = s.chars();
    let mut done: Vec<String> = Vec::new();
    let mut cur = String::new();
    let ghost mut i: int = 0;
    assert(all.take(0) =~= Seq::<char>::empty());
    assert(all.skip(0) =~= all);
    loop
        invariant
            0 <= i <= all.len(),
            chars.remaining() == all.skip(i),
            chars.obeys_prophetic_iter_laws(),
            split_state(all.take(i)) == (done.deep_view(), cur@),
        ensures
            split_state(all) == (done.deep_view(), cur@),
        decreases all.len() - i,
    {
        match chars.next() {
            None => {
                assert(all.take(i) =~= all);
                break;
            },
            Some(c) => {
                assert(c == all[i]);
                assert(all.take(i + 1).drop_last() =~= all.take(i));
                assert(all.skip(i + 1) =~= all.skip(i).drop_first());
                if char_is_whitespace(c) {
                    if !cur.as_str().is_empty() {
                        let ghost old_done = done.deep_view();
                        let word = cur;
                        cur = String::new();
                        done.push(word);
                        assert(done.deep_view() =~= old_done.push(word@));
                    }
                } else {
                    push_char(&mut cur, c);
                }
                proof {
                    i = i + 1;
                }
            },
        }
    }
    if !cur.as_str().is_empty() {
        let ghost old_done = done.deep_view();
        done.push(cur);
        assert(done.deep_view() =~= old_done.push(cur@));
    }
    done
}

/// `ws.join(" ")`.
pub fn join_words(ws: &Vec<String>) -> (r: String)
    ensures
        r@ == joined(ws.deep_view()),
{
    let ghost all = ws.deep_view();
    let mut out = String::new();
    let mut i: usize = 0;
    proof {
        reveal_strlit(" ");
    }
    while i < ws.len()
        invariant
            i <= ws.len(),
            all == ws.deep_view(),
            " "@ == seq![' '],
            out@ == joined(all.take(i as int)),
        decreases ws.len() - i,
    {
        assert(all.take(i + 1).drop_last() =~= all.take(i as int));
        if i > 0 {
            out.append(" ");
        } else {
            assert(all.take(0) =~= Seq::<Seq<char>>::empty());
        }
        out.append(ws[i].as_str());
        i = i + 1;
    }
    assert(all.take(ws.len() as int) =~= all);
    out
}

/// `s.split_whitespace().collect::<Vec<_>>().join(" ")`: the words of `s`
/// separated by single spaces.
pub fn normalize_whitespace(s: &str) -> (r: String)
    ensures
        r@ == normalized(s@),
{
    let ws = split_words(s);
    join_words(&ws)
}

/// The words of all the texts, one text after another, separated by single
/// spaces: `texts.flat_map(split_whitespace).collect::<Vec<_>>().join(" ")`.
pub fn normalize_all(texts: &Vec<String>) -> (r: String)
    ensures
        r@ == joined(words_of_all(texts.deep_view())),
{
    let ghost all = texts.deep_view();
    let mut ws: Vec<String> = Vec::new();
    let mut i: usize = 0;
    while i < texts.len()
        invariant
            i <= texts.len(),
            all == texts.deep_view(),
            ws.deep_view() == words_of_all(all.take(i as int)),
        decreases texts.len() - i,
    {
        let mut more = split_words(texts[i].as_str());
        let ghost a = ws.deep_view();
        let ghost b = more.deep_view();
        ws.append(&mut more);
        assert(ws.deep_view() =~= a + b);
        assert(all.take(i + 1).drop_last() =~= all.take(i as int));
        i = i + 1;
    }
    assert(all.take(texts.len() as int) =~= all);
    join_words(&ws)
}

} // verus!
