//! The report channel: a pre-filled issue form the user's browser opens.
//! The one page it may ever open is the repository's issue form, so the
//! channel can never become a generic link-opener. Starting the browser is
//! the application's; deciding whether it may is done here.

use vstd::prelude::*;
use crate::chaines::{caracteres, chaine, concat, egales, tranche};

verus! {

/// The page every report URL must start with.
pub open spec fn page_de_rapport() -> Seq<char> {
    "https://github.com/alexis-morain/colophon/issues/new"@
}

/// `url` opens the repository's issue form, and nothing else.
pub open spec fn url_admise(url: Seq<char>) -> bool {
    url.len() >= page_de_rapport().len() && url.subrange(0, page_de_rapport().len() as int) == page_de_rapport()
}

/// Whether the browser may be asked to open `url`: only for the issue form
/// of the repository, refused with the URL named otherwise, before any
/// process starts.
pub fn verifier_url_de_rapport(url: &str) -> (r: Result<(), String>)
    ensures
        r is Ok <==> url_admise(url@),
        r matches Err(e) ==> e@ == "URL hors du dépôt : "@ + url@,
{
    let page = caracteres("https://github.com/alexis-morain/colophon/issues/new");
    let v = caracteres(url);
    if v.len() >= page.len() && egales(tranche(v.as_slice(), 0, page.len()).as_slice(), page.as_slice()) {
        Ok(())
    } else {
        let e = concat(caracteres("URL hors du dépôt : ").as_slice(), v.as_slice());
        Err(chaine(e.as_slice()))
    }
}

} // verus!
