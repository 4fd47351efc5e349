//! Templates put together from pieces, and what they resolve to.

use crate::format::{Cursor, SpecFormatError, ARG_END, ARG_START};
use crate::render::{
    is_placeholder_name, lemma_scan_argument, lemma_scan_plain, placeholder, resolve_spec,
    scan_from, Parts, SpecResolutionError,
};
use vstd::prelude::*;

verus! {

/// One piece of a template: a run of text, or a placeholder for a name.
pub enum Piece {
    Text(Seq<char>),
    Variable(Seq<char>),
}

impl Piece {
    /// The piece as it is written in a template.
    pub open spec fn written(self) -> Seq<char> {
        match self {
            Piece::Text(text) => text,
            Piece::Variable(name) => placeholder(name, Seq::empty()),
        }
    }

    /// What the piece stands for, given the table.
    pub open spec fn expanded(self, vars: Map<Seq<char>, Seq<char>>) -> Seq<char> {
        match self {
            Piece::Text(text) => text,
            Piece::Variable(name) => vars[name],
        }
    }
}

/// The template that the pieces make, written one after the other.
pub open spec fn template(pieces: Seq<Piece>) -> Seq<char>
    decreases pieces.len(),
{
    if pieces.len() == 0 {
        Seq::empty()
    } else {
        pieces[0].written() + template(pieces.drop_first())
    }
}

/// What the pieces stand for, one after the other.
pub open spec fn expansion(pieces: Seq<Piece>, vars: Map<Seq<char>, Seq<char>>) -> Seq<char>
    decreases pieces.len(),
{
    if pieces.len() == 0 {
        Seq::empty()
    } else {
        pieces[0].expanded(vars) + expansion(pieces.drop_first(), vars)
    }
}

/// The number of placeholders among the pieces.
pub open spec fn variables(pieces: Seq<Piece>) -> nat
    decreases pieces.len(),
{
    if pieces.len() == 0 {
        0
    } else if pieces[0] is Variable {
        1 + variables(pieces.drop_first())
    } else {
        variables(pieces.drop_first())
    }
}

/// The pieces are read back from their template as they were written: a
/// run of text is not empty, holds no opening bracket, ends where a
/// placeholder starts or the template ends, and does not start with a closing
/// bracket behind a placeholder; a placeholder holds a name that the table
/// defines.
pub open spec fn well_formed(pieces: Seq<Piece>, vars: Map<Seq<char>, Seq<char>>) -> bool
    decreases pieces.len(),
{
    pieces.len() == 0 || {
        let rest = pieces.drop_first();
        &&& match pieces[0] {
            Piece::Text(text) => {
                &&& text.len() > 0
                &&& !text.contains(ARG_START)
                &&& rest.len() > 0 ==> rest[0] is Variable
            },
            Piece::Variable(name) => {
                &&& is_placeholder_name(name)
                &&& vars.contains_key(name)
                &&& rest.len() > 0 ==> (rest[0] matches Piece::Text(text) ==> text[0] != ARG_END)
            },
        }
        &&& well_formed(rest, vars)
    }
}

/// The scan of a well-formed template yields its pieces: it ends without an
/// error, having joined what each piece stands for, in order, and counted
/// the placeholders.
pub proof fn lemma_scan_pieces(
    pieces: Seq<Piece>,
    vars: Map<Seq<char>, Seq<char>>,
    consumed: nat,
    done: Parts,
)
    requires
        well_formed(pieces, vars),
    ensures
        scan_from(Cursor { input: template(pieces), vars, consumed }, done) == Ok::<
            Parts,
            SpecFormatError,
        >(
            Parts {
                text: done.text + expansion(pieces, vars),
                arguments: done.arguments + variables(pieces),
            },
        ),
    decreases pieces.len(),
{
    if pieces.len() == 0 {
        assert(done.text + expansion(pieces, vars) =~= done.text);
    } else {
        let rest = pieces.drop_first();
        let tail = template(rest);
        if rest.len() > 0 {
            assert(well_formed(rest, vars));
            assert(rest[0].written().len() > 0);
            assert(tail[0] == rest[0].written()[0]);
        }
        match pieces[0] {
            Piece::Text(text) => {
                lemma_scan_plain(text, tail, vars, consumed, done);
                let joined = Parts { text: done.text + text, arguments: done.arguments };
                lemma_scan_pieces(rest, vars, consumed + text.len(), joined);
                assert(joined.text + expansion(rest, vars) =~= done.text + expansion(pieces, vars));
            },
            Piece::Variable(name) => {
                assert(template(pieces) =~= placeholder(name, tail));
                lemma_scan_argument(name, tail, vars, consumed, done);
                let joined = Parts {
                    text: done.text + vars[name],
                    arguments: done.arguments + 1,
                };
                lemma_scan_pieces(rest, vars, consumed + name.len() + 2, joined);
                assert(joined.text + expansion(rest, vars) =~= done.text + expansion(pieces, vars));
            },
        }
    }
}

/// Concatenation: a well-formed template with a placeholder in it resolves
/// to what its pieces stand for, joined in order, with nothing added.
pub proof fn lemma_concatenation(
    pieces: Seq<Piece>,
    vars: Map<Seq<char>, Seq<char>>,
    env: Map<Seq<char>, Seq<char>>,
)
    requires
        well_formed(pieces, vars),
        variables(pieces) > 0,
    ensures
        resolve_spec(template(pieces), vars, env) == Ok::<Seq<char>, SpecResolutionError>(
            expansion(pieces, vars),
        ),
{
    lemma_scan_pieces(pieces, vars, 0, Parts::none());
    assert(Parts::none().text + expansion(pieces, vars) =~= expansion(pieces, vars));
}

} // verus!
