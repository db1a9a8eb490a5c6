//! The laws of reading a query: which queries read, and which value each parameter gets.
use vstd::prelude::*;
use crate::otpauth::{query_fold, query_params, query_piece, url_decoded};
use crate::text::{find_char, lemma_find_char};

verus! {

/// The `&`-separated pieces of a query, in order.
pub open spec fn amp_pieces(q: Seq<char>) -> Seq<Seq<char>>
    decreases q.len(),
{
    match find_char(q, '&') {
        None => seq![q],
        Some(i) => {
            proof {
                lemma_find_char(q, '&');
            }
            seq![q.take(i)] + amp_pieces(q.skip(i + 1))
        },
    }
}

/// Reads the pieces `ps` into the parameters `m`, in order.
pub open spec fn pieces_fold(m: Map<Seq<char>, Seq<char>>, ps: Seq<Seq<char>>) -> Result<
    Map<Seq<char>, Seq<char>>,
    Seq<char>,
>
    decreases ps.len(),
{
    if ps.len() == 0 {
        Ok(m)
    } else {
        match query_piece(m, ps[0]) {
            Ok(m2) => pieces_fold(m2, ps.drop_first()),
            Err(e) => Err(e),
        }
    }
}

/// A piece with an `=` names a parameter: the raw text before the first `=`.
pub open spec fn piece_key(p: Seq<char>) -> Option<Seq<char>> {
    match find_char(p, '=') {
        Some(j) => Some(p.take(j)),
        None => None,
    }
}

/// The raw value of a piece with an `=`: the text after the first `=`.
pub open spec fn piece_raw_value(p: Seq<char>) -> Seq<char> {
    match find_char(p, '=') {
        Some(j) => p.skip(j + 1),
        None => Seq::empty(),
    }
}

/// The last of the pieces `ps` that names `k`.
pub open spec fn last_naming(ps: Seq<Seq<char>>, k: Seq<char>) -> Option<int>
    decreases ps.len(),
{
    if ps.len() == 0 {
        None
    } else if piece_key(ps.last()) == Some(k) {
        Some(ps.len() - 1)
    } else {
        last_naming(ps.drop_last(), k)
    }
}

proof fn lemma_last_naming_range(ps: Seq<Seq<char>>, k: Seq<char>)
    ensures
        last_naming(ps, k) matches Some(i) ==> 0 <= i < ps.len() && piece_key(ps[i]) == Some(k),
    decreases ps.len(),
{
    if ps.len() > 0 && piece_key(ps.last()) != Some(k) {
        lemma_last_naming_range(ps.drop_last(), k);
        if let Some(i) = last_naming(ps.drop_last(), k) {
            assert(ps.drop_last()[i] == ps[i]);
        }
    }
}

proof fn lemma_query_fold_pieces(m: Map<Seq<char>, Seq<char>>, q: Seq<char>)
    ensures
        query_fold(m, q) == pieces_fold(m, amp_pieces(q)),
    decreases q.len(),
{
    let ps = amp_pieces(q);
    match find_char(q, '&') {
        None => {
            assert(ps[0] == q);
            assert(ps.drop_first() =~= Seq::<Seq<char>>::empty());
            match query_piece(m, q) {
                Ok(m2) => assert(pieces_fold(m2, ps.drop_first()) == Ok::<Map<Seq<char>, Seq<char>>, Seq<char>>(m2)),
                Err(_) => {},
            }
        },
        Some(i) => {
            lemma_find_char(q, '&');
            assert(ps[0] == q.take(i));
            assert(ps.drop_first() =~= amp_pieces(q.skip(i + 1)));
            match query_piece(m, q.take(i)) {
                Ok(m2) => lemma_query_fold_pieces(m2, q.skip(i + 1)),
                Err(_) => {},
            }
        },
    }
}

proof fn lemma_pieces_fold_last(m: Map<Seq<char>, Seq<char>>, ps: Seq<Seq<char>>)
    requires
        ps.len() > 0,
    ensures
        pieces_fold(m, ps) == match pieces_fold(m, ps.drop_last()) {
            Ok(m2) => query_piece(m2, ps.last()),
            Err(e) => Err::<Map<Seq<char>, Seq<char>>, Seq<char>>(e),
        },
    decreases ps.len(),
{
    if ps.len() == 1 {
        assert(ps.drop_last() =~= Seq::<Seq<char>>::empty());
        assert(ps.drop_first() =~= Seq::<Seq<char>>::empty());
        assert(ps.last() == ps[0]);
        assert(pieces_fold(m, ps.drop_last()) == Ok::<Map<Seq<char>, Seq<char>>, Seq<char>>(m));
        match query_piece(m, ps[0]) {
            Ok(m2) => {
                assert(pieces_fold(m2, ps.drop_first()) == Ok::<Map<Seq<char>, Seq<char>>, Seq<char>>(m2));
            },
            Err(_) => {},
        }
    } else {
        assert(ps.drop_last()[0] == ps[0]);
        assert(ps.drop_first().drop_last() =~= ps.drop_last().drop_first());
        assert(ps.drop_first().last() == ps.last());
        match query_piece(m, ps[0]) {
            Ok(m2) => lemma_pieces_fold_last(m2, ps.drop_first()),
            Err(_) => {},
        }
    }
}

/// Reading pieces succeeds exactly when every piece with an `=` has a value that decodes. The
/// parameters read are then those given before, and one for each raw name a piece gives, set
/// to the decoded value of the last piece that names it; pieces without an `=` are skipped.
pub proof fn lemma_pieces_fold_law(m: Map<Seq<char>, Seq<char>>, ps: Seq<Seq<char>>)
    ensures
        pieces_fold(m, ps) is Ok <==> forall|i: int|
            0 <= i < ps.len() && #[trigger] piece_key(ps[i]) is Some ==> url_decoded(piece_raw_value(ps[i])) is Ok,
        pieces_fold(m, ps) matches Ok(r) ==> forall|k: Seq<char>|
            #![trigger r.dom().contains(k)]
            match last_naming(ps, k) {
                Some(i) => r.dom().contains(k) && r[k] == url_decoded(piece_raw_value(ps[i]))->Ok_0,
                None => r.dom().contains(k) == m.dom().contains(k) && r[k] == m[k],
            },
    decreases ps.len(),
{
    if ps.len() > 0 {
        let d = ps.drop_last();
        let p = ps.last();
        lemma_pieces_fold_law(m, d);
        lemma_pieces_fold_last(m, ps);
        lemma_find_char(p, '=');
        if pieces_fold(m, ps) is Ok {
            assert forall|i: int|
                0 <= i < ps.len() && #[trigger] piece_key(ps[i]) is Some implies url_decoded(
                    piece_raw_value(ps[i]),
                ) is Ok by {
                if i < d.len() {
                    assert(ps[i] == d[i]);
                }
            }
        }
        if forall|i: int|
            0 <= i < ps.len() && #[trigger] piece_key(ps[i]) is Some ==> url_decoded(piece_raw_value(ps[i])) is Ok {
            assert forall|i: int|
                0 <= i < d.len() && #[trigger] piece_key(d[i]) is Some implies url_decoded(
                    piece_raw_value(d[i]),
                ) is Ok by {
                assert(ps[i] == d[i]);
            }
            assert(piece_key(ps[ps.len() - 1]) is Some ==> url_decoded(piece_raw_value(p)) is Ok);
        }
        match pieces_fold(m, ps) {
            Ok(r) => {
                let m2 = pieces_fold(m, d)->Ok_0;
                assert forall|k: Seq<char>| #![trigger r.dom().contains(k)]
                    match last_naming(ps, k) {
                        Some(i) => r.dom().contains(k) && r[k] == url_decoded(piece_raw_value(ps[i]))->Ok_0,
                        None => r.dom().contains(k) == m.dom().contains(k) && r[k] == m[k],
                    } by {
                    assert(m2.dom().contains(k) == m2.dom().contains(k));
                    if piece_key(p) == Some(k) {
                        assert(last_naming(ps, k) == Some(ps.len() - 1));
                    } else {
                        assert(last_naming(ps, k) == last_naming(d, k));
                        lemma_last_naming_range(d, k);
                        match last_naming(d, k) {
                            Some(i) => {
                                assert(ps[i] == d[i]);
                            },
                            None => {},
                        }
                    }
                }
            },
            Err(_) => {},
        }
    }
}

/// A query reads exactly when every `&`-separated piece with an `=` has a value that
/// decodes. Its parameters are then named by the pieces' raw (undecoded) names, each set to
/// the decoded value of the last piece naming it; pieces without an `=` are skipped.
pub proof fn lemma_query_params_law(q: Seq<char>)
    ensures
        query_params(q) is Ok <==> forall|i: int|
            0 <= i < amp_pieces(q).len() && #[trigger] piece_key(amp_pieces(q)[i]) is Some
                ==> url_decoded(piece_raw_value(amp_pieces(q)[i])) is Ok,
        query_params(q) matches Ok(r) ==> forall|k: Seq<char>|
            #![trigger r.dom().contains(k)]
            match last_naming(amp_pieces(q), k) {
                Some(i) => r.dom().contains(k) && r[k] == url_decoded(piece_raw_value(amp_pieces(q)[i]))->Ok_0,
                None => !r.dom().contains(k),
            },
{
    let ps = amp_pieces(q);
    lemma_query_fold_pieces(Map::empty(), q);
    lemma_pieces_fold_law(Map::empty(), ps);
    if let Ok(r) = query_params(q) {
        assert forall|k: Seq<char>| #![trigger r.dom().contains(k)]
            match last_naming(ps, k) {
                Some(i) => r.dom().contains(k) && r[k] == url_decoded(piece_raw_value(ps[i]))->Ok_0,
                None => !r.dom().contains(k),
            } by {
            assert(r.dom().contains(k) == r.dom().contains(k));
        }
    }
}

} // verus!
