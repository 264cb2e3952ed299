//! Recognition of a document by its kind. A text may be valid as more than
//! one kind: each function answers for its own.

use vstd::prelude::*;

pub mod cnh;
pub mod cnpj;
pub mod common;
pub mod cpf;
pub mod doc;

verus! {

/// Tells whether a text is a valid CPF, masked or not.
pub fn is_cpf(doc: &str) -> (r: bool)
    ensures
        r == crate::cpf::valid(doc@),
{
    crate::cpf::validate(doc)
}

/// Tells whether a text is a valid CNPJ, masked or not.
pub fn is_cnpj(doc: &str) -> (r: bool)
    ensures
        r == crate::cnpj::valid(doc@),
{
    crate::cnpj::validate(doc)
}

/// Tells whether a text is a valid CNH, masked or not.
pub fn is_cnh(doc: &str) -> (r: bool)
    ensures
        r == crate::cnh::valid(doc@),
{
    crate::cnh::validate(doc)
}

/// Tells whether a text is a valid CNS, masked or not.
pub fn is_cns(doc: &str) -> (r: bool)
    ensures
        r == crate::cns::valid(doc@),
{
    crate::cns::validate(doc)
}

/// Tells whether a text is a valid NIS/NIT/PIS/PASEP, masked or not.
pub fn is_nis(doc: &str) -> (r: bool)
    ensures
        r == crate::nis::valid(doc@),
{
    crate::nis::validate(doc)
}

/// Tells whether a text is a valid Título Eleitoral, masked or not.
pub fn is_eleitoral(doc: &str) -> (r: bool)
    ensures
        r == crate::eleitoral::valid(doc@),
{
    crate::eleitoral::validate(doc)
}

/// Tells whether a text is a valid RENAVAM, masked or not.
pub fn is_renavam(doc: &str) -> (r: bool)
    ensures
        r == crate::renavam::valid(doc@),
{
    crate::renavam::validate(doc)
}

/// Tells whether a text is a valid Certidão, masked or not.
pub fn is_certidao(doc: &str) -> (r: bool)
    ensures
        r == crate::certidao::valid(doc@),
{
    crate::certidao::validate(doc)
}

} // verus!
