//! The `tag:value` line format that the stored records use.
//!
//! A record is text split on `\n`. A line is split at its first `:` into a tag and a value;
//! a line with no `:` is skipped. Each tag updates a state, or fails, and the first failure
//! stops the read.
use vstd::prelude::*;
use crate::text::{
    dec_chars, find_char, lemma_find_char, lemma_find_char_concat, lemma_find_char_none, push_char,
    push_dec,
};

verus! {

/// Applies the line `line` with `apply`, which takes the tag and the value.
pub open spec fn tagged_line<M, E>(
    st: M,
    line: Seq<char>,
    apply: spec_fn(M, Seq<char>, Seq<char>) -> Result<M, E>,
) -> Result<M, E> {
    match find_char(line, ':') {
        None => Ok(st),
        Some(i) => apply(st, line.take(i), line.skip(i + 1)),
    }
}

/// Reads the text `t` line by line from `st`. The result is the state reached and, when a
/// line fails, its error; the state is then the one before that line.
pub open spec fn fold_lines<M, E>(
    st: M,
    t: Seq<char>,
    apply: spec_fn(M, Seq<char>, Seq<char>) -> Result<M, E>,
) -> (M, Option<E>)
    decreases t.len(),
{
    match find_char(t, '\n') {
        None => match tagged_line(st, t, apply) {
            Ok(m) => (m, None),
            Err(e) => (st, Some(e)),
        },
        Some(i) => match tagged_line(st, t.take(i), apply) {
            Ok(m) => {
                proof {
                    lemma_find_char(t, '\n');
                }
                fold_lines(m, t.skip(i + 1), apply)
            },
            Err(e) => (st, Some(e)),
        },
    }
}

/// The lines of `t`: the text between line breaks, in order.
pub open spec fn split_lines(t: Seq<char>) -> Seq<Seq<char>>
    decreases t.len(),
{
    match find_char(t, '\n') {
        None => seq![t],
        Some(i) => {
            proof {
                lemma_find_char(t, '\n');
            }
            seq![t.take(i)] + split_lines(t.skip(i + 1))
        },
    }
}

/// A line that fails whatever state it is read in stops the read with an error, wherever in
/// the text it stands.
pub proof fn lemma_fold_lines_fails<M, E>(
    st: M,
    t: Seq<char>,
    apply: spec_fn(M, Seq<char>, Seq<char>) -> Result<M, E>,
    i: int,
)
    requires
        0 <= i < split_lines(t).len(),
        forall|s2: M| #[trigger] tagged_line(s2, split_lines(t)[i], apply) is Err,
    ensures
        fold_lines(st, t, apply).1 is Some,
    decreases t.len(),
{
    let ls = split_lines(t);
    match find_char(t, '\n') {
        None => {
            assert(ls[0] == t);
            assert(tagged_line(st, ls[i], apply) is Err);
        },
        Some(k) => {
            lemma_find_char(t, '\n');
            assert(ls[0] == t.take(k));
            if i == 0 {
                assert(tagged_line(st, ls[0], apply) is Err);
            } else {
                assert(ls[i] == split_lines(t.skip(k + 1))[i - 1]);
                match tagged_line(st, t.take(k), apply) {
                    Ok(m) => lemma_fold_lines_fails(m, t.skip(k + 1), apply, i - 1),
                    Err(_) => {},
                }
            }
        },
    }
}

/// One written line: the tag, a colon, the value and a newline.
pub open spec fn field(tag: Seq<char>, value: Seq<char>) -> Seq<char> {
    tag + seq![':'] + value + seq!['\n']
}

/// Reading a written line applies its tag and value, then reads on.
pub proof fn lemma_fold_field<M, E>(
    st: M,
    tag: Seq<char>,
    value: Seq<char>,
    rest: Seq<char>,
    apply: spec_fn(M, Seq<char>, Seq<char>) -> Result<M, E>,
)
    requires
        !tag.contains(':'),
        !tag.contains('\n'),
        !value.contains('\n'),
    ensures
        fold_lines(st, field(tag, value) + rest, apply) == match apply(st, tag, value) {
            Ok(m) => fold_lines(m, rest, apply),
            Err(e) => (st, Some(e)),
        },
{
    let line = tag + seq![':'] + value;
    let t = field(tag, value) + rest;
    assert(t =~= line + seq!['\n'] + rest);
    assert(!line.contains('\n')) by {
        if line.contains('\n') {
            let k = choose|k: int| 0 <= k < line.len() && line[k] == '\n';
            if k < tag.len() {
                assert(tag[k] == '\n');
            } else if k > tag.len() {
                assert(value[k - tag.len() - 1] == '\n');
            }
        }
    }
    lemma_find_char_concat(line, '\n', rest);
    lemma_find_char_concat(tag, ':', value);
}

/// Reading nothing changes nothing.
pub proof fn lemma_fold_empty<M, E>(st: M, apply: spec_fn(M, Seq<char>, Seq<char>) -> Result<M, E>)
    ensures
        fold_lines(st, Seq::<char>::empty(), apply) == (st, None::<E>),
{
    lemma_find_char_none(Seq::<char>::empty(), '\n');
    lemma_find_char_none(Seq::<char>::empty(), ':');
}

/// Written lines, one per `(tag, value)` pair, in order.
pub open spec fn fields_text(fs: Seq<(Seq<char>, Seq<char>)>) -> Seq<char>
    decreases fs.len(),
{
    if fs.len() == 0 {
        Seq::empty()
    } else {
        field(fs[0].0, fs[0].1) + fields_text(fs.drop_first())
    }
}

/// Applies `(tag, value)` pairs in order, stopping at the first failure.
pub open spec fn fold_fields<M, E>(
    st: M,
    fs: Seq<(Seq<char>, Seq<char>)>,
    apply: spec_fn(M, Seq<char>, Seq<char>) -> Result<M, E>,
) -> (M, Option<E>)
    decreases fs.len(),
{
    if fs.len() == 0 {
        (st, None)
    } else {
        match apply(st, fs[0].0, fs[0].1) {
            Ok(m) => fold_fields(m, fs.drop_first(), apply),
            Err(e) => (st, Some(e)),
        }
    }
}

/// No tag holds a colon or a line break, and no value a line break.
pub open spec fn fields_clean(fs: Seq<(Seq<char>, Seq<char>)>) -> bool {
    forall|i: int|
        0 <= i < fs.len() ==> !(#[trigger] fs[i]).0.contains(':') && !fs[i].0.contains('\n')
            && !fs[i].1.contains('\n')
}

/// Reading written lines applies their pairs in order.
pub proof fn lemma_fold_fields<M, E>(
    st: M,
    fs: Seq<(Seq<char>, Seq<char>)>,
    apply: spec_fn(M, Seq<char>, Seq<char>) -> Result<M, E>,
)
    requires
        fields_clean(fs),
    ensures
        fold_lines(st, fields_text(fs), apply) == fold_fields(st, fs, apply),
    decreases fs.len(),
{
    if fs.len() == 0 {
        lemma_fold_empty(st, apply);
    } else {
        assert(fields_clean(fs.drop_first())) by {
            assert forall|i: int| 0 <= i < fs.drop_first().len() implies !(
            #[trigger] fs.drop_first()[i]).0.contains(':') && !fs.drop_first()[i].0.contains('\n')
                && !fs.drop_first()[i].1.contains('\n') by {
                assert(fs.drop_first()[i] == fs[i + 1]);
            }
        }
        assert(!fs[0].0.contains(':') && !fs[0].0.contains('\n') && !fs[0].1.contains('\n'));
        lemma_fold_field(st, fs[0].0, fs[0].1, fields_text(fs.drop_first()), apply);
        match apply(st, fs[0].0, fs[0].1) {
            Ok(m) => {
                lemma_fold_fields(m, fs.drop_first(), apply);
            },
            Err(e) => {},
        }
    }
}

/// Writing one more pair appends its line.
pub proof fn lemma_fields_text_push(fs: Seq<(Seq<char>, Seq<char>)>, k: int)
    requires
        0 <= k < fs.len(),
    ensures
        fields_text(fs.take(k + 1)) == fields_text(fs.take(k)) + field(fs[k].0, fs[k].1),
    decreases k,
{
    if k == 0 {
        assert(fs.take(1).drop_first() =~= Seq::<(Seq<char>, Seq<char>)>::empty());
        assert(fs.take(0) =~= Seq::<(Seq<char>, Seq<char>)>::empty());
        assert(fs.take(1)[0] == fs[0]);
        assert(fields_text(Seq::<(Seq<char>, Seq<char>)>::empty()) == Seq::<char>::empty());
        assert(fields_text(fs.take(1)) =~= field(fs[0].0, fs[0].1));
    } else {
        lemma_fields_text_push(fs.drop_first(), k - 1);
        assert(fs.take(k + 1).drop_first() =~= fs.drop_first().take(k));
        assert(fs.take(k).drop_first() =~= fs.drop_first().take(k - 1));
        assert(fs.drop_first()[k - 1] == fs[k]);
        assert(fields_text(fs.take(k + 1)) =~= field(fs[0].0, fs[0].1) + (fields_text(
            fs.drop_first().take(k - 1),
        ) + field(fs[k].0, fs[k].1)));
    }
}

/// Appends the line `tag:value`.
pub fn push_field(s: &mut String, tag: &str, value: &str)
    ensures
        final(s)@ == old(s)@ + field(tag@, value@),
{
    s.append(tag);
    push_char(s, ':');
    s.append(value);
    push_char(s, '\n');
    assert(final(s)@ =~= old(s)@ + field(tag@, value@));
}

/// Appends the line `tag:n`, with `n` in decimal.
pub fn push_field_num(s: &mut String, tag: &str, n: u64)
    ensures
        final(s)@ == old(s)@ + field(tag@, dec_chars(n as nat)),
{
    s.append(tag);
    push_char(s, ':');
    push_dec(s, n);
    push_char(s, '\n');
    assert(final(s)@ =~= old(s)@ + field(tag@, dec_chars(n as nat)));
}

} // verus!
