//! The `account` declaration, with its value typed as an account path.

use vstd::prelude::*;

use crate::account::Account;
use crate::declaration::{
    declaration, lines_view, spec_declaration, DeclarationKind, DeclarationView,
};
use crate::error::{ErrView, ParseError};

verus! {

/// An `account` declaration: the declared account path and the verbatim
/// metadata lines.
#[derive(Debug, Clone, PartialEq, Eq)]
pub struct AccountDeclaration {
    pub account: Account,
    pub extras: Vec<Vec<char>>,
}

/// Scans an `account` declaration at the front of `input`.
pub fn account_declaration(input: &[char]) -> (r: Result<
    (&[char], AccountDeclaration),
    ParseError,
>)
    ensures
        match r {
            Ok((leftover, value)) => {
                &&& leftover@.len() <= input@.len()
                &&& spec_declaration(input@, DeclarationKind::Account) == Ok::<
                    (nat, DeclarationView),
                    ErrView,
                >(
                    (
                        (input@.len() - leftover@.len()) as nat,
                        DeclarationView {
                            kind: DeclarationKind::Account,
                            value: value.account@,
                            extras: lines_view(value.extras@),
                        },
                    ),
                )
                &&& leftover@ == input@.skip((input@.len() - leftover@.len()) as int)
            },
            Err(e) => spec_declaration(input@, DeclarationKind::Account) == Err::<
                (nat, DeclarationView),
                ErrView,
            >(e@),
        },
{
    match declaration(input, DeclarationKind::Account) {
        Err(e) => Err(e),
        Ok((leftover, d)) => Ok(
            (leftover, AccountDeclaration { account: Account(d.value), extras: d.extras }),
        ),
    }
}

} // verus!
