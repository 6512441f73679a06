//! The annotation data model: one OCR-detected text fragment with its
//! bounding polygon, and the block classification carried by full-layout
//! documents.

use vstd::prelude::*;
use vstd::string::StringExecFns;
use crate::geometry::BoundingBox;

verus! {

/// Classification of a layout block in the full-page annotation of the
/// source document. The core pipeline ignores full-page layout; the kind is
/// part of the data model so that a binding layer can carry it through.
#[derive(Clone, Copy, PartialEq, Eq, Structural, Debug)]
pub enum BlockType {
    Unknown,
    Text,
    Table,
    Picture,
    Ruler,
    Barcode,
}

/// One detected text fragment: the recognized text, its locale, and its
/// bounding polygon. Fragments are immutable once produced from the source
/// document; the reconstruction engine only consumes, filters and merges
/// them into new fragments.
pub struct Annotation {
    pub locale: String,
    pub description: String,
    pub bounding_poly: BoundingBox,
}

/// Mathematical model of a fragment: both strings as character sequences,
/// the box by value.
pub struct FragModel {
    pub locale: Seq<char>,
    pub description: Seq<char>,
    pub bounding_poly: BoundingBox,
}

impl View for Annotation {
    type V = FragModel;

    open spec fn view(&self) -> FragModel {
        FragModel {
            locale: self.locale@,
            description: self.description@,
            bounding_poly: self.bounding_poly,
        }
    }
}

/// The models of a fragment sequence.
pub open spec fn models(s: Seq<Annotation>) -> Seq<FragModel> {
    s.map_values(|a: Annotation| a@)
}

/// The locale assumed for a fragment whose source record names none.
pub fn default_locale() -> (r: String)
    ensures
        r@ == "en"@,
{
    String::from_str("en")
}

} // verus!
