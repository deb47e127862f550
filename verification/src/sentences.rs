//! Cutting text into sentences, so that a narration can begin before the
//! text is complete and can be stopped between two sentences.

use vstd::prelude::*;

verus! {

/// The bytes that end a sentence: full stop, exclamation mark, question mark.
pub open spec fn is_terminator(b: u8) -> bool {
    b == 0x2E || b == 0x21 || b == 0x3F
}

/// Blank, tab, line feed, carriage return.
pub open spec fn is_space(b: u8) -> bool {
    b == 0x20 || b == 0x09 || b == 0x0A || b == 0x0D
}

/// A sentence ends before place `p`: a terminator stands before it and
/// white space at it.
pub open spec fn is_boundary(text: Seq<u8>, p: int) -> bool {
    0 < p < text.len() && is_terminator(text[p - 1]) && is_space(text[p])
}

/// `p` is the first place before which a sentence ends.
pub open spec fn is_first_boundary(text: Seq<u8>, p: int) -> bool {
    is_boundary(text, p) && forall|q: int| 0 < q < p ==> !is_boundary(text, q)
}

pub open spec fn has_boundary(text: Seq<u8>) -> bool {
    exists|p: int| is_boundary(text, p)
}

pub open spec fn first_boundary(text: Seq<u8>) -> int {
    choose|p: int| is_first_boundary(text, p)
}

/// `k` is the number of white-space bytes with which `text` begins.
pub open spec fn is_indent(text: Seq<u8>, k: int) -> bool {
    &&& 0 <= k <= text.len()
    &&& forall|j: int| 0 <= j < k ==> is_space(#[trigger] text[j])
    &&& k < text.len() ==> !is_space(text[k])
}

/// The text without the white space it begins with.
pub open spec fn trimmed(text: Seq<u8>) -> Seq<u8> {
    text.skip(choose|k: int| is_indent(text, k))
}

/// The length of the first sentence of a text that begins without white
/// space: it runs up to the first boundary; without a boundary it is the
/// whole text once the text is known to be complete, and not there yet
/// otherwise.
pub open spec fn sentence_len(text: Seq<u8>, complete: bool) -> int {
    if has_boundary(text) {
        first_boundary(text)
    } else if complete {
        text.len() as int
    } else {
        0
    }
}

/// The sentences of a complete text, in order, each without the white
/// space before it.
pub open spec fn sentences(text: Seq<u8>) -> Seq<Seq<u8>>
    decreases text.len(),
{
    let t = trimmed(text);
    let n = sentence_len(t, true);
    if 0 < n <= t.len() && t.len() <= text.len() {
        seq![t.take(n)] + sentences(t.skip(n))
    } else {
        Seq::empty()
    }
}

pub fn terminator(b: u8) -> (r: bool)
    ensures
        r == is_terminator(b),
{
    b == 0x2E || b == 0x21 || b == 0x3F
}

pub fn space(b: u8) -> (r: bool)
    ensures
        r == is_space(b),
{
    b == 0x20 || b == 0x09 || b == 0x0A || b == 0x0D
}

/// A text has one indent.
pub proof fn lemma_indent_is(text: Seq<u8>, k: int)
    requires
        is_indent(text, k),
    ensures
        trimmed(text) == text.skip(k),
{
    let c = choose|c: int| is_indent(text, c);
    if c < k {
        assert(is_space(text[c]));
    } else if k < c {
        assert(is_space(text[k]));
    }
}

/// A text has one first boundary.
pub proof fn lemma_first_boundary_is(text: Seq<u8>, p: int)
    requires
        is_first_boundary(text, p),
    ensures
        has_boundary(text),
        first_boundary(text) == p,
{
    let c = choose|c: int| is_first_boundary(text, c);
    if c < p {
        assert(!is_boundary(text, c));
    } else if p < c {
        assert(!is_boundary(text, p));
    }
}

/// Takes the first sentence out of `buffer`, if `buffer` holds one. The
/// white space before it is dropped. While more text may follow
/// (`complete` is false), a sentence is taken only if white space follows
/// its terminator; once the text is complete, what is left counts as the
/// last sentence.
pub fn take_sentence(buffer: &mut Vec<u8>, complete: bool) -> (r: Option<Vec<u8>>)
    ensures
        sentence_len(trimmed(old(buffer)@), complete) <= trimmed(old(buffer)@).len()
            <= old(buffer)@.len(),
        match r {
            Some(sentence) => {
                &&& 0 < sentence_len(trimmed(old(buffer)@), complete)
                &&& sentence@ == trimmed(old(buffer)@).take(
                    sentence_len(trimmed(old(buffer)@), complete),
                )
                &&& final(buffer)@ == trimmed(old(buffer)@).skip(
                    sentence_len(trimmed(old(buffer)@), complete),
                )
            },
            None => {
                &&& sentence_len(trimmed(old(buffer)@), complete) == 0
                &&& final(buffer)@ == trimmed(old(buffer)@)
            },
        },
{
    let n = buffer.len();
    let ghost text = buffer@;
    let mut start: usize = 0;
    while start < n && space(buffer[start])
        invariant
            n == buffer.len(),
            buffer@ == text,
            start <= n,
            forall|j: int| 0 <= j < start ==> is_space(#[trigger] text[j]),
        decreases n - start,
    {
        start = start + 1;
    }
    let ghost t = text.skip(start as int);
    proof {
        lemma_indent_is(text, start as int);
    }
    let mut end: usize = start;
    let mut found = false;
    let mut p: usize = if start < n {
        start + 1
    } else {
        n
    };
    while p < n && !found
        invariant
            n == buffer.len(),
            buffer@ == text,
            t == text.skip(start as int),
            start <= n,
            start < n ==> start < p <= n,
            start == n ==> p == n,
            found ==> start < end < n && is_first_boundary(t, end - start),
            !found ==> end == start && forall|q: int| 0 < q < p - start ==> !is_boundary(t, q),
        decreases n - p + if found { 0int } else { 1int },
    {
        proof {
            assert(t[p - start - 1] == text[p - 1]);
            assert(t[p - start] == text[p as int]);
        }
        if terminator(buffer[p - 1]) && space(buffer[p]) {
            found = true;
            end = p;
        } else {
            p = p + 1;
        }
    }
    if !found && complete {
        end = n;
    }
    proof {
        if found {
            lemma_first_boundary_is(t, end - start);
        } else {
            assert forall|q: int| !is_boundary(t, q) by {}
        }
        assert(end - start == sentence_len(t, complete));
    }
    let rest = buffer.split_off(end);
    let sentence = buffer.split_off(start);
    *buffer = rest;
    proof {
        assert(sentence@ =~= t.take(end - start));
        assert(buffer@ =~= t.skip(end - start));
    }
    if end == start {
        None
    } else {
        Some(sentence)
    }
}

/// Splits a complete text into its sentences.
pub fn split_sentences(text: Vec<u8>) -> (r: Vec<Vec<u8>>)
    ensures
        r@.map_values(|s: Vec<u8>| s@) == sentences(text@),
{
    let ghost whole = text@;
    let mut buffer = text;
    let mut out: Vec<Vec<u8>> = Vec::new();
    let mut more = true;
    proof {
        assert(out@.map_values(|s: Vec<u8>| s@) + sentences(buffer@) =~= sentences(whole));
    }
    while more
        invariant
            more ==> out@.map_values(|s: Vec<u8>| s@) + sentences(buffer@) == sentences(whole),
            !more ==> out@.map_values(|s: Vec<u8>| s@) == sentences(whole),
        decreases buffer.len() + if more { 1int } else { 0int },
    {
        let ghost before = buffer@;
        let ghost done = out@.map_values(|s: Vec<u8>| s@);
        match take_sentence(&mut buffer, true) {
            Some(sentence) => {
                out.push(sentence);
                proof {
                    assert(out@.map_values(|s: Vec<u8>| s@) =~= done.push(sentence@));
                    assert(done.push(sentence@) + sentences(buffer@) =~= done + (seq![sentence@]
                        + sentences(buffer@)));
                }
            },
            None => {
                more = false;
                proof {
                    assert(done + sentences(before) =~= done);
                }
            },
        }
    }
    out
}

/// Every text has an indent.
pub proof fn lemma_indent_exists(text: Seq<u8>, from: int) -> (k: int)
    requires
        0 <= from <= text.len(),
        forall|j: int| 0 <= j < from ==> is_space(#[trigger] text[j]),
    ensures
        is_indent(text, k),
        trimmed(text) == text.skip(k),
    decreases text.len() - from,
{
    if from < text.len() && is_space(text[from]) {
        lemma_indent_exists(text, from + 1)
    } else {
        lemma_indent_is(text, from);
        from
    }
}

/// A text in which a sentence ends has a first place where one ends.
pub proof fn lemma_first_boundary_exists(text: Seq<u8>, p: int)
    requires
        is_boundary(text, p),
    ensures
        is_first_boundary(text, first_boundary(text)),
        first_boundary(text) <= p,
    decreases p,
{
    if exists|q: int| 0 < q < p && is_boundary(text, q) {
        let q = choose|q: int| 0 < q < p && is_boundary(text, q);
        lemma_first_boundary_exists(text, q);
    } else {
        lemma_first_boundary_is(text, p);
    }
}

/// The sentences of a text are whole: none is empty, none begins with
/// white space, and none holds a place where a sentence ends.
pub proof fn lemma_sentences_are_whole(text: Seq<u8>, i: int)
    requires
        0 <= i < sentences(text).len(),
    ensures
        sentences(text)[i].len() > 0,
        !is_space(sentences(text)[i][0]),
        !has_boundary(sentences(text)[i]),
    decreases text.len(),
{
    let k = lemma_indent_exists(text, 0);
    let t = trimmed(text);
    let n = sentence_len(t, true);
    if i == 0 {
        let first = t.take(n);
        assert(sentences(text)[0] == first);
        assert(first[0] == text[k]);
        if has_boundary(first) {
            let q = choose|q: int| is_boundary(first, q);
            assert(first[q - 1] == t[q - 1] && first[q] == t[q]);
            assert(is_boundary(t, q));
            lemma_first_boundary_exists(t, q);
        }
    } else {
        assert(sentences(text)[i] == sentences(t.skip(n))[i - 1]);
        lemma_sentences_are_whole(t.skip(n), i - 1);
    }
}

/// A text without a place where a sentence ends is one sentence.
pub proof fn lemma_one_sentence(text: Seq<u8>)
    requires
        text.len() > 0,
        !is_space(text[0]),
        !has_boundary(text),
    ensures
        sentences(text) == seq![text],
{
    lemma_indent_is(text, 0);
    assert(text.skip(0) =~= text);
    assert(text.take(text.len() as int) =~= text);
    let rest = text.skip(text.len() as int);
    lemma_indent_is(rest, 0);
    assert(rest.skip(0) =~= rest);
    assert(sentences(rest) =~= Seq::<Seq<u8>>::empty());
    assert(sentences(text) =~= seq![text]);
}

/// A sentence that is closed in the text received so far stays as it is,
/// whatever text follows: to speak it at once gives what speaking the
/// complete text gives.
pub proof fn lemma_closed_sentence_is_final(text: Seq<u8>, more: Seq<u8>, complete: bool)
    requires
        0 < sentence_len(trimmed(text), false),
    ensures
        trimmed(text + more) == trimmed(text) + more,
        sentence_len(trimmed(text + more), complete) == sentence_len(trimmed(text), false),
        trimmed(text + more).take(sentence_len(trimmed(text), false)) == trimmed(text).take(
            sentence_len(trimmed(text), false),
        ),
{
    let k = lemma_indent_exists(text, 0);
    let t = trimmed(text);
    let p = choose|p: int| is_boundary(t, p);
    lemma_first_boundary_exists(t, p);
    let n = first_boundary(t);
    let whole = text + more;
    assert(k < text.len());
    assert forall|j: int| 0 <= j < k implies is_space(#[trigger] whole[j]) by {
        assert(whole[j] == text[j]);
    }
    assert(whole[k] == text[k]);
    lemma_indent_is(whole, k);
    let w = trimmed(whole);
    assert(w =~= t + more);
    assert forall|q: int| 0 < q < n implies !is_boundary(w, q) by {
        assert(w[q - 1] == t[q - 1] && w[q] == t[q]);
        assert(!is_boundary(t, q));
    }
    assert(w[n - 1] == t[n - 1] && w[n] == t[n]);
    lemma_first_boundary_is(w, n);
    assert(w.take(n) =~= t.take(n));
}

} // verus!
