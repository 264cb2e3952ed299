//! Validation, masking and generation of Brazilian document numbers: CPF,
//! CNPJ, CNH, CNS, NIS/NIT/PIS/PASEP, Título Eleitoral, Certidão and RENAVAM.
//!
//! Each kind of document has a module of its own, with the same functions:
//! `validate`, `is_bare`, `is_masked`, `mask`, `generate` and
//! `generate_masked`. What these compute is stated over the characters of a
//! text, by the functions `valid`, `bare` and `masked` of the module and by
//! `layout::masked_form`. The module `docs` answers for a text whether it is a
//! document of a given kind; `common` extracts digits and symbols and draws
//! random digits; `layout` recognises and applies masks; `lemmas` holds the
//! facts that the modules share.

pub mod certidao;
pub mod cnh;
pub mod cnpj;
pub mod cns;
pub mod common;
pub mod cpf;
pub mod docs;
pub mod eleitoral;
pub mod layout;
pub mod lemmas;
pub mod nis;
pub mod renavam;
