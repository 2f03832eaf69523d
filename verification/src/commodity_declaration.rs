//! The `commodity` declaration, with its value typed as a commodity
//! symbol.

use vstd::prelude::*;

use crate::commodity::Commodity;
use crate::declaration::{
    declaration, lines_view, spec_declaration, DeclarationKind, DeclarationView,
};
use crate::error::{ErrView, ParseError};

verus! {

/// A `commodity` declaration: the declared symbol and the verbatim
/// metadata lines.
#[derive(Debug, Clone, PartialEq, Eq)]
pub struct CommodityDeclaration {
    pub commodity: Commodity,
    pub extras: Vec<Vec<char>>,
}

/// Scans a `commodity` declaration at the front of `input`.
pub fn commodity_declaration(input: &[char]) -> (r: Result<
    (&[char], CommodityDeclaration),
    ParseError,
>)
    ensures
        match r {
            Ok((leftover, value)) => {
                &&& leftover@.len() <= input@.len()
                &&& spec_declaration(input@, DeclarationKind::Commodity) == Ok::<
                    (nat, DeclarationView),
                    ErrView,
                >(
                    (
                        (input@.len() - leftover@.len()) as nat,
                        DeclarationView {
                            kind: DeclarationKind::Commodity,
                            value: value.commodity@,
                            extras: lines_view(value.extras@),
                        },
                    ),
                )
                &&& leftover@ == input@.skip((input@.len() - leftover@.len()) as int)
            },
            Err(e) => spec_declaration(input@, DeclarationKind::Commodity) == Err::<
                (nat, DeclarationView),
                ErrView,
            >(e@),
        },
{
    match declaration(input, DeclarationKind::Commodity) {
        Err(e) => Err(e),
        Ok((leftover, d)) => Ok(
            (leftover, CommodityDeclaration { commodity: Commodity(d.value), extras: d.extras }),
        ),
    }
}

} // verus!
