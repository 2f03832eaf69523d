//! The `tag` declaration, with its value typed as a tag label.

use vstd::prelude::*;

use crate::declaration::{
    declaration, lines_view, spec_declaration, DeclarationKind, DeclarationView,
};
use crate::error::{ErrView, ParseError};
use crate::tag::Tag;

verus! {

/// A `tag` declaration: the declared label and the verbatim metadata
/// lines.
#[derive(Debug, Clone, PartialEq, Eq)]
pub struct TagDeclaration {
    pub tag: Tag,
    pub extras: Vec<Vec<char>>,
}

/// Scans a `tag` declaration at the front of `input`.
pub fn tag_declaration(input: &[char]) -> (r: Result<(&[char], TagDeclaration), ParseError>)
    ensures
        match r {
            Ok((leftover, value)) => {
                &&& leftover@.len() <= input@.len()
                &&& spec_declaration(input@, DeclarationKind::Tag) == Ok::<
                    (nat, DeclarationView),
                    ErrView,
                >(
                    (
                        (input@.len() - leftover@.len()) as nat,
                        DeclarationView {
                            kind: DeclarationKind::Tag,
                            value: value.tag@,
                            extras: lines_view(value.extras@),
                        },
                    ),
                )
                &&& leftover@ == input@.skip((input@.len() - leftover@.len()) as int)
            },
            Err(e) => spec_declaration(input@, DeclarationKind::Tag) == Err::<
                (nat, DeclarationView),
                ErrView,
            >(e@),
        },
{
    match declaration(input, DeclarationKind::Tag) {
        Err(e) => Err(e),
        Ok((leftover, d)) => Ok((leftover, TagDeclaration { tag: Tag(d.value), extras: d.extras })),
    }
}

} // verus!
