//! Entries of the issuer directory as listed by the provider.
use vstd::prelude::*;
use crate::ticker::IssuerIdentity;

verus! {

/// A directory listing: company name, issuer code and series code.
#[derive(Debug)]
pub struct EmisoraBusqueda {
    pub razon_social: String,
    pub emisoras: String,
    pub serie: String,
}

impl EmisoraBusqueda {
    /// The identity this listing stands for, with the given security type.
    pub fn to_identity(&self, security_type: Option<String>) -> (r: IssuerIdentity)
        ensures
            r.issuer_code == self.emisoras,
            r.series_code == self.serie,
            r.display_name == self.razon_social,
            r.security_type == security_type,
    {
        IssuerIdentity {
            issuer_code: self.emisoras.clone(),
            series_code: self.serie.clone(),
            display_name: self.razon_social.clone(),
            security_type,
        }
    }
}

} // verus!
