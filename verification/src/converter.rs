//! From the bytes of a stream to the text of its document.
use vstd::prelude::*;
use crate::decoder::{decode, spec_decode};
use crate::error::{AbxError, SpecAbxError};
use crate::writer::{node_text, to_xml};

verus! {

/// The XML text that a buffer stands for, or why it stands for none.
pub open spec fn spec_convert(bytes: Seq<u8>) -> Result<Seq<char>, SpecAbxError> {
    match spec_decode(bytes) {
        Ok(root) => Ok(node_text(root)),
        Err(e) => Err(SpecAbxError::Decode(e)),
    }
}

/// The view of a text or an error.
pub open spec fn text_outcome(r: Result<String, AbxError>) -> Result<Seq<char>, SpecAbxError> {
    match r {
        Ok(text) => Ok(text@),
        Err(e) => Err(e@),
    }
}

/// Converts binary XML to XML text.
pub struct AbxToXmlConverter;

impl AbxToXmlConverter {
    /// Decodes `bytes` and writes the document as XML text.
    pub fn convert_bytes(bytes: &[u8]) -> (r: Result<String, AbxError>)
        ensures
            text_outcome(r) == spec_convert(bytes@),
    {
        match decode(bytes) {
            Ok(root) => Ok(to_xml(&root)),
            Err(e) => Err(AbxError::Decode(e)),
        }
    }
}

} // verus!
