//! Properties of parsing and of reply handling, stated over the specifications
//! of the public functions and proved.
use vstd::prelude::*;
use crate::generate::{exit_code_spec, reply_spec};
use crate::question::{
    answer_marker, clean_options, option_separator, options_marker, parse_spec, question_label,
    reply_text_spec, ErrorView, Marker, QuestionView,
};
use crate::text::{
    concat, free_of, is_trimmed, is_ws, join, lemma_free_concat, lemma_free_without_head,
    lemma_split_char_append, lemma_split_free, lemma_split_once, lemma_trim_padded, match_from,
    remove_all, split_on,
};

verus! {

/// A reply in which the options marker stands exactly once, and the answer
/// marker exactly once after it, always parses; its options are the
/// `;`-separated pieces between the two markers, trimmed, without the empty
/// ones, in their original order.
pub proof fn lemma_well_marked_reply_parses(category: Seq<char>, raw: Seq<char>)
    requires
        split_on(raw, options_marker()).len() == 2,
        split_on(split_on(raw, options_marker())[1], answer_marker()).len() == 2,
    ensures
        parse_spec(category, raw) is Ok,
        parse_spec(category, raw)->Ok_0.options == clean_options(
            split_on(
                split_on(split_on(raw, options_marker())[1], answer_marker())[0],
                option_separator(),
            ),
        ),
{
}

/// Where a marker does not occur at all, `s` is left in one piece.
pub proof fn lemma_split_without_marker(s: Seq<char>, p: Seq<char>)
    requires
        match_from(s, p, 0) is None,
    ensures
        split_on(s, p) == seq![s],
{
}

/// A reply without the options marker is malformed for want of it; a reply
/// with one options marker and no answer marker after it is malformed for
/// want of the answer marker.
pub proof fn lemma_missing_marker_is_malformed(category: Seq<char>, raw: Seq<char>)
    ensures
        match_from(raw, options_marker(), 0) is None ==> parse_spec(category, raw) == Err::<
            QuestionView,
            ErrorView,
        >(ErrorView::MalformedResponse(Marker::Options)),
        split_on(raw, options_marker()).len() == 2 && match_from(
            split_on(raw, options_marker())[1],
            answer_marker(),
            0,
        ) is None ==> parse_spec(category, raw) == Err::<
            QuestionView,
            ErrorView,
        >(ErrorView::MalformedResponse(Marker::Answer)),
{
    if match_from(raw, options_marker(), 0) is None {
        lemma_split_without_marker(raw, options_marker());
    }
    if split_on(raw, options_marker()).len() == 2 {
        let rest = split_on(raw, options_marker())[1];
        if match_from(rest, answer_marker(), 0) is None {
            lemma_split_without_marker(rest, answer_marker());
        }
    }
}

/// A failed backend call ends in a backend error that keeps its cause, and the
/// outcome's exit status is non-zero.
pub proof fn lemma_backend_failure_is_reported(category: Seq<char>, cause: Seq<char>)
    ensures
        reply_spec(category, Err(cause)) == Err::<QuestionView, ErrorView>(
            ErrorView::Backend(cause),
        ),
        exit_code_spec(reply_spec(category, Err(cause))) != 0,
{
}

/// An option that reads back unchanged: non-empty, trimmed, without the
/// separator and without either marker.
pub open spec fn well_formed_option(o: Seq<char>) -> bool {
    &&& o.len() > 0
    &&& is_trimmed(o)
    &&& !o.contains(';')
    &&& free_of(o, options_marker())
    &&& free_of(o, answer_marker())
}

/// Fields that read back unchanged: each trimmed, the question without the
/// label and the options marker, the options well formed, the answer without
/// either marker.
pub open spec fn well_formed(q: QuestionView) -> bool {
    &&& is_trimmed(q.question)
    &&& free_of(q.question, question_label())
    &&& free_of(q.question, options_marker())
    &&& forall|k: int| 0 <= k < q.options.len() ==> well_formed_option(#[trigger] q.options[k])
    &&& is_trimmed(q.answer)
    &&& free_of(q.answer, options_marker())
    &&& free_of(q.answer, answer_marker())
}

/// The pieces that splitting a space, the options joined by `"; "`, and
/// `tail` on `;` yields.
pub open spec fn padded_pieces(opts: Seq<Seq<char>>, tail: Seq<char>) -> Seq<Seq<char>>
    decreases opts.len(),
{
    if opts.len() == 0 {
        seq![seq![' '] + tail]
    } else if opts.len() == 1 {
        seq![seq![' '] + opts[0] + tail]
    } else {
        padded_pieces(opts.drop_last(), Seq::empty()).push(seq![' '] + opts.last() + tail)
    }
}

/// The characters of the literal texts of the reply template.
proof fn lemma_literals()
    ensures
        options_marker() == seq!['O', 'p', 't', 'i', 'o', 'n', 's', ':'],
        answer_marker() == seq!['A', 'n', 's', 'w', 'e', 'r', ':'],
        question_label() == seq!['Q', 'u', 'e', 's', 't', 'i', 'o', 'n', ':'],
        "; "@ == seq![';', ' '],
        "Question: "@ == question_label() + seq![' '],
        "\nOptions: "@ == seq!['\n'] + options_marker() + seq![' '],
        "\nAnswer: "@ == seq!['\n'] + answer_marker() + seq![' '],
{
    reveal_strlit("Options:");
    reveal_strlit("Answer:");
    reveal_strlit("Question:");
    reveal_strlit("; ");
    reveal_strlit("Question: ");
    reveal_strlit("\nOptions: ");
    reveal_strlit("\nAnswer: ");
    assert(options_marker() =~= seq!['O', 'p', 't', 'i', 'o', 'n', 's', ':']);
    assert(answer_marker() =~= seq!['A', 'n', 's', 'w', 'e', 'r', ':']);
    assert(question_label() =~= seq!['Q', 'u', 'e', 's', 't', 'i', 'o', 'n', ':']);
    assert("; "@ =~= seq![';', ' ']);
    assert("Question: "@ =~= question_label() + seq![' ']);
    assert("\nOptions: "@ =~= seq!['\n'] + options_marker() + seq![' ']);
    assert("\nAnswer: "@ =~= seq!['\n'] + answer_marker() + seq![' ']);
}

/// Splitting a space, the joined options and `tail` on `;` gives one piece
/// per option.
proof fn lemma_split_joined(opts: Seq<Seq<char>>, tail: Seq<char>)
    requires
        forall|k: int| 0 <= k < opts.len() ==> !(#[trigger] opts[k]).contains(';'),
        !tail.contains(';'),
    ensures
        split_on(seq![' '] + join(opts, "; "@) + tail, seq![';']) == padded_pieces(opts, tail),
    decreases opts.len(),
{
    lemma_literals();
    let s = seq![' '] + join(opts, "; "@) + tail;
    if opts.len() <= 1 {
        if opts.len() == 1 {
            assert(!opts[0].contains(';'));
        }
        assert forall|k: int| 0 <= k < s.len() implies s[k] != seq![';'][0] by {
            if s[k] == ';' {
                assert(s.contains(';'));
            }
        }
        lemma_free_without_head(s, seq![';']);
        lemma_split_free(s, seq![';']);
    } else {
        let dl = opts.drop_last();
        let x = seq![' '] + join(dl, "; "@);
        let b = seq![' '] + opts.last() + tail;
        assert(!opts[opts.len() - 1].contains(';'));
        assert(s =~= x + seq![';'] + b);
        lemma_split_char_append(x, ';', b);
        assert(x + Seq::<char>::empty() =~= x);
        lemma_split_joined(dl, Seq::empty());
    }
}

/// Trimming the pieces of the joined options gives the options back.
proof fn lemma_clean_padded(opts: Seq<Seq<char>>, tail: Seq<char>)
    requires
        forall|k: int| 0 <= k < opts.len() ==> well_formed_option(#[trigger] opts[k]),
        forall|k: int| 0 <= k < tail.len() ==> is_ws(tail[k]),
    ensures
        clean_options(padded_pieces(opts, tail)) == opts,
    decreases opts.len(),
{
    let sp = seq![' '];
    let pp = padded_pieces(opts, tail);
    assert(clean_options(Seq::<Seq<char>>::empty()) == Seq::<Seq<char>>::empty());
    if opts.len() == 0 {
        assert(sp + Seq::<char>::empty() + tail =~= sp + tail);
        lemma_trim_padded(sp, Seq::empty(), tail);
        assert(pp.last() == sp + tail);
        assert(pp.drop_last() =~= Seq::<Seq<char>>::empty());
        assert(clean_options(pp) =~= opts);
    } else {
        let o = opts.last();
        assert(well_formed_option(opts[opts.len() - 1]));
        lemma_trim_padded(sp, o, tail);
        if opts.len() == 1 {
            assert(pp.last() == sp + o + tail);
            assert(pp.drop_last() =~= Seq::<Seq<char>>::empty());
            assert(clean_options(pp) =~= opts);
        } else {
            let dl = opts.drop_last();
            assert(pp.last() == sp + o + tail);
            assert(pp.drop_last() =~= padded_pieces(dl, Seq::empty()));
            assert forall|k: int| 0 <= k < dl.len() implies well_formed_option(#[trigger] dl[k]) by {
                assert(dl[k] == opts[k]);
            }
            lemma_clean_padded(dl, Seq::empty());
            assert(clean_options(pp) =~= opts);
        }
    }
}

/// Options free of `p` stay free of it once joined by `"; "`, where `p`
/// holds neither `;` nor a space.
proof fn lemma_join_free(opts: Seq<Seq<char>>, p: Seq<char>)
    requires
        p.len() > 0,
        !p.contains(';'),
        !p.contains(' '),
        forall|k: int| 0 <= k < opts.len() ==> free_of(#[trigger] opts[k], p),
    ensures
        free_of(join(opts, "; "@), p),
    decreases opts.len(),
{
    lemma_literals();
    if opts.len() == 0 {
        assert(join(opts, "; "@) =~= Seq::<char>::empty());
    } else if opts.len() == 1 {
        assert(free_of(opts[0], p));
    } else {
        let dl = opts.drop_last();
        assert forall|k: int| 0 <= k < dl.len() implies free_of(#[trigger] dl[k], p) by {
            assert(dl[k] == opts[k]);
        }
        lemma_join_free(dl, p);
        let sep = seq![';', ' '];
        assert forall|k: int| 0 <= k < sep.len() implies sep[k] != p[0] by {
            if sep[k] == p[0] {
                assert(p.contains(sep[k]));
            }
        }
        lemma_free_without_head(sep, p);
        lemma_free_concat(join(dl, "; "@), sep, p);
        assert(free_of(opts[opts.len() - 1], p));
        assert((join(dl, "; "@) + sep).last() == ' ');
        lemma_free_concat(join(dl, "; "@) + sep, opts.last(), p);
    }
}

/// A text free of `p` because none of its characters starts `p`.
proof fn lemma_free_chars(s: Seq<char>, p: Seq<char>)
    requires
        p.len() > 0,
        !s.contains(p[0]),
    ensures
        free_of(s, p),
{
    assert forall|k: int| 0 <= k < s.len() implies s[k] != p[0] by {
        if s[k] == p[0] {
            assert(s.contains(p[0]));
        }
    }
    lemma_free_without_head(s, p);
}

/// Writing well-formed fields in the reply template and parsing that reply
/// again gives the same fields back.
pub proof fn lemma_reparse_round_trip(q: QuestionView)
    requires
        well_formed(q),
    ensures
        parse_spec(q.category, reply_text_spec(q)) == Ok::<QuestionView, ErrorView>(q),
{
    lemma_literals();
    let om = options_marker();
    let am = answer_marker();
    let ql = question_label();
    let sp = seq![' '];
    let nl = seq!['\n'];
    let j = join(q.options, "; "@);
    let text = reply_text_spec(q);

    assert(!om.contains(';') && !om.contains(' ') && !om.contains('\n')) by {
        assert forall|c: char| om.contains(c) implies c != ';' && c != ' ' && c != '\n' by {
            let i = choose|i: int| 0 <= i < om.len() && om[i] == c;
        }
    }
    assert(!am.contains(';') && !am.contains(' ') && !am.contains('\n')) by {
        assert forall|c: char| am.contains(c) implies c != ';' && c != ' ' && c != '\n' by {
            let i = choose|i: int| 0 <= i < am.len() && am[i] == c;
        }
    }
    assert(!ql.contains(' ') && !ql.contains('\n')) by {
        assert forall|c: char| ql.contains(c) implies c != ' ' && c != '\n' by {
            let i = choose|i: int| 0 <= i < ql.len() && ql[i] == c;
        }
    }
    assert(!(ql + sp).contains('O')) by {
        assert forall|c: char| (ql + sp).contains(c) implies c != 'O' by {
            let i = choose|i: int| 0 <= i < (ql + sp).len() && (ql + sp)[i] == c;
        }
    }
    assert(!am.contains('O')) by {
        assert forall|c: char| am.contains(c) implies c != 'O' by {
            let i = choose|i: int| 0 <= i < am.len() && am[i] == c;
        }
    }
    assert(!sp.contains('O') && !sp.contains('A') && !sp.contains('Q') && !sp.contains(';')) by {
        assert forall|c: char| sp.contains(c) implies c == ' ' by {
            let i = choose|i: int| 0 <= i < sp.len() && sp[i] == c;
        }
    }
    assert(!nl.contains('O') && !nl.contains('A') && !nl.contains('Q') && !nl.contains(';')) by {
        assert forall|c: char| nl.contains(c) implies c == '\n' by {
            let i = choose|i: int| 0 <= i < nl.len() && nl[i] == c;
        }
    }

    // The options marker stands once, right after the question line.
    let line = ql + sp + q.question + nl;
    let rest = sp + j + nl + am + sp + q.answer;
    assert(text =~= line + om + rest);
    lemma_free_chars(ql + sp, om);
    lemma_free_concat(ql + sp, q.question, om);
    lemma_free_chars(nl, om);
    lemma_free_concat(ql + sp + q.question, nl, om);
    assert forall|k: int| 0 <= k < q.options.len() implies free_of(#[trigger] q.options[k], om) by {
        assert(well_formed_option(q.options[k]));
    }
    lemma_join_free(q.options, om);
    lemma_free_chars(sp, om);
    lemma_free_concat(sp, j, om);
    lemma_free_concat(sp + j, nl, om);
    lemma_free_chars(am, om);
    lemma_free_concat(sp + j + nl, am, om);
    lemma_free_concat(sp + j + nl + am, sp, om);
    lemma_free_concat(sp + j + nl + am + sp, q.answer, om);
    lemma_split_once(line, om, rest);

    // The answer marker stands once in what follows.
    let middle = sp + j + nl;
    let last = sp + q.answer;
    assert(rest =~= middle + am + last);
    assert forall|k: int| 0 <= k < q.options.len() implies free_of(#[trigger] q.options[k], am) by {
        assert(well_formed_option(q.options[k]));
    }
    lemma_join_free(q.options, am);
    lemma_free_chars(sp, am);
    lemma_free_concat(sp, j, am);
    lemma_free_chars(nl, am);
    lemma_free_concat(sp + j, nl, am);
    lemma_free_concat(sp, q.answer, am);
    lemma_split_once(middle, am, last);

    // The question line loses its label and its padding.
    let body = sp + q.question + nl;
    assert(line =~= Seq::<char>::empty() + ql + body);
    assert(free_of(Seq::<char>::empty(), ql));
    lemma_free_chars(sp, ql);
    lemma_free_concat(sp, q.question, ql);
    lemma_free_chars(nl, ql);
    lemma_free_concat(sp + q.question, nl, ql);
    lemma_split_once(Seq::empty(), ql, body);
    let halves = seq![Seq::<char>::empty(), body];
    assert(halves.drop_last() =~= seq![Seq::<char>::empty()]);
    assert(halves.drop_last().drop_last() =~= Seq::<Seq<char>>::empty());
    assert(concat(Seq::<Seq<char>>::empty()) == Seq::<char>::empty());
    assert(concat(halves.drop_last()) =~= Seq::<char>::empty());
    assert(concat(halves) =~= body);
    assert(remove_all(line, ql) == body);
    lemma_trim_padded(sp, q.question, nl);

    // The options come back one by one.
    assert forall|k: int| 0 <= k < q.options.len() implies !(#[trigger] q.options[k]).contains(';') by {
        assert(well_formed_option(q.options[k]));
    }
    lemma_split_joined(q.options, nl);
    lemma_clean_padded(q.options, nl);

    // The answer loses its padding.
    assert(sp + q.answer + Seq::<char>::empty() =~= last);
    lemma_trim_padded(sp, q.answer, Seq::empty());
}

} // verus!
