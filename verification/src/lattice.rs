//! The lattice of visibilities, from `pub` down to private.

use vstd::prelude::*;
use vstd::string::*;
use vstd::utf8::encode_utf8;
use crate::text::same_bytes;

verus! {

/// A visibility, most permissive first.
#[derive(Clone, Copy, Debug, PartialEq, Eq, Structural)]
pub enum PubKind {
    /// `pub`
    Pub,
    /// `pub(crate)`
    Crate,
    /// `pub(super)`
    Super,
    /// No annotation at all.
    Private,
}

impl PubKind {
    /// The height of a visibility in the lattice: the number of demotions
    /// that lead from it to `Private`.
    pub open spec fn rank(self) -> nat {
        match self {
            PubKind::Pub => 3,
            PubKind::Crate => 2,
            PubKind::Super => 1,
            PubKind::Private => 0,
        }
    }

    /// The next strictly more restrictive visibility, if there is one.
    pub open spec fn demoted(self) -> Option<PubKind> {
        match self {
            PubKind::Pub => Some(PubKind::Crate),
            PubKind::Crate => Some(PubKind::Super),
            PubKind::Super => Some(PubKind::Private),
            PubKind::Private => None,
        }
    }

    /// The text that is spliced in for a visibility.
    pub open spec fn rendering(self) -> Seq<char> {
        match self {
            PubKind::Pub => "pub "@,
            PubKind::Crate => "pub(crate) "@,
            PubKind::Super => "pub(super) "@,
            PubKind::Private => ""@,
        }
    }

    /// The visibility that a qualifier stands for: none at all is `pub`,
    /// `crate` and `super` are the two scoped forms, anything else is not
    /// supported.
    pub open spec fn of_qualifier(qualifier: Option<Seq<u8>>) -> Option<PubKind> {
        match qualifier {
            None => Some(PubKind::Pub),
            Some(word) => if word == encode_utf8("crate"@) {
                Some(PubKind::Crate)
            } else if word == encode_utf8("super"@) {
                Some(PubKind::Super)
            } else {
                None
            },
        }
    }

    /// Reads the visibility that a qualifier spells, where it is supported.
    pub fn from_qualifier(qualifier: Option<&[u8]>) -> (r: Option<PubKind>)
        ensures
            r == PubKind::of_qualifier(
                match qualifier {
                    Some(word) => Some(word@),
                    None => None,
                },
            ),
    {
        match qualifier {
            None => Some(PubKind::Pub),
            Some(word) => {
                if same_bytes(word, "crate".as_bytes()) {
                    Some(PubKind::Crate)
                } else if same_bytes(word, "super".as_bytes()) {
                    Some(PubKind::Super)
                } else {
                    None
                }
            },
        }
    }

    /// Computes [`PubKind::rank`].
    pub fn height(self) -> (r: u8)
        ensures
            r == self.rank(),
    {
        match self {
            PubKind::Pub => 3,
            PubKind::Crate => 2,
            PubKind::Super => 1,
            PubKind::Private => 0,
        }
    }

    /// Steps one level down the lattice; `None` at the bottom.
    pub fn demote(self) -> (r: Option<PubKind>)
        ensures
            r == self.demoted(),
    {
        match self {
            PubKind::Pub => Some(PubKind::Crate),
            PubKind::Crate => Some(PubKind::Super),
            PubKind::Super => Some(PubKind::Private),
            PubKind::Private => None,
        }
    }

    /// The text to splice in for this visibility.
    pub fn render(self) -> (r: &'static str)
        ensures
            r@ == self.rendering(),
    {
        match self {
            PubKind::Pub => "pub ",
            PubKind::Crate => "pub(crate) ",
            PubKind::Super => "pub(super) ",
            PubKind::Private => "",
        }
    }
}

/// The lattice is a chain: a demotion lowers the rank by exactly one, and
/// only `Private`, of rank zero, has none.
pub proof fn lemma_demotion_lowers_rank(kind: PubKind)
    ensures
        kind.demoted() is None <==> kind.rank() == 0,
        kind.demoted() matches Some(lower) ==> lower.rank() + 1 == kind.rank(),
{
}

/// The order of the lattice is total, and the rank tells two visibilities
/// apart.
pub proof fn lemma_rank_is_total_order(a: PubKind, b: PubKind)
    ensures
        a.rank() <= b.rank() || b.rank() <= a.rank(),
        a.rank() == b.rank() <==> a == b,
{
}

} // verus!
