//! The vault that the user chose.

use vstd::prelude::*;

verus! {

/// The vault path, if one was configured; the error that a command reports
/// otherwise.
pub fn configured_vault(vault_path: Option<String>) -> (r: Result<String, String>)
    ensures
        match vault_path {
            Some(p) => r == Ok::<String, String>(p),
            None => r matches Err(e) && e@ == "nenhum vault configurado"@,
        },
{
    match vault_path {
        Some(p) => Ok(p),
        None => Err(String::from_str("nenhum vault configurado")),
    }
}

} // verus!
