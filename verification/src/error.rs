//! The closed error taxonomy shared by every operation of the driver.

use vstd::prelude::*;

verus! {

/// Declares the error type of the `image` crate so that the taxonomy can
/// carry it, opaquely and unaltered, as the cause of an image-processing
/// failure.
#[verifier::external_type_specification]
#[verifier::external_body]
pub struct ExImageError(image::ImageError);

/// Possible custom errors for the library. The set is closed: every
/// failure surfaced by the driver is one of these variants, so a caller
/// can branch on the variant structurally instead of parsing rendered
/// text.
#[derive(Debug)]
pub enum Error {
    /// A failure of the USB transport layer, carried as the transport
    /// error's rendered description.
    LibusbError(String),
    /// For text printing, the replaced sequence could not be found
    CP437Error(String),
    /// Error regarding image treatment
    ImageError(image::ImageError),
    /// This means no bulk endpoint could be found
    NoBulkEndpoint,
    /// No replacement string for an instruction was found
    NoReplacementFound(String),
    /// PrintData should've been supplied.
    NoPrintData,
    PrinterError(String),
    WrongMarkdown,
    NoTables,
    NoTableFound(String),
    NoWidth,
    NoQrContent(String),
    NoQrContents,
    Encoding,
}

/// What the rendering of each variant must look like: a fixed text for
/// the leaf variants, the fixed prefix followed by the payload where one
/// is carried, and the fixed prefix followed by the wrapped cause's own
/// rendering for the image-wrapping variant.
pub open spec fn describes(e: Error, m: Seq<char>) -> bool {
    match e {
        Error::LibusbError(d) => m == "Libusb error: "@ + d@,
        Error::CP437Error(d) => m == "CP437 error: "@ + d@,
        Error::ImageError(_) => exists|t: Seq<char>| m == "Image error: "@ + t,
        Error::NoBulkEndpoint => m == "No bulk endpoint could be found"@,
        Error::NoReplacementFound(r) => m == "Could not find replacement for tag {"@ + r@ + "}"@,
        Error::NoPrintData => m == "Print data must be supplied for this instruction"@,
        Error::PrinterError(d) => m == "An error occured while printing, "@ + d@,
        Error::WrongMarkdown => m == "Incorrect markdown structure"@,
        Error::NoTables => m == "Not a single table was found in the PrintData structure"@,
        Error::NoTableFound(t) => m == "No table was found for id {"@ + t@ + "}"@,
        Error::NoWidth => m == "No width was found for the selected font"@,
        Error::NoQrContent(n) => m == "Could not find qr code content for \""@ + n@ + "\""@,
        Error::NoQrContents => m == "Could not find qr contents"@,
        Error::Encoding => m == "An unsupported utf-8 character was found when passing to cp437"@,
    }
}

/// Relies on the `Display` rendering of `image::ImageError`: the crate
/// formats the wrapped decoder, encoder, parameter, limit or input/output
/// failure as text. Nothing further is assumed of the rendered text.
#[verifier::external_body]
fn image_cause_text(e: &image::ImageError) -> (r: String) {
    e.to_string()
}

impl Error {
    /// The human-readable rendering of the failure: non-empty for every
    /// variant and every payload, and shaped as `describes` states.
    pub fn message(&self) -> (r: String)
        ensures
            describes(*self, r@),
            r@.len() > 0,
    {
        match self {
            Error::LibusbError(d) => {
                proof {
                    reveal_strlit("Libusb error: ");
                }
                "Libusb error: ".to_owned().concat(d.as_str())
            },
            Error::CP437Error(d) => {
                proof {
                    reveal_strlit("CP437 error: ");
                }
                "CP437 error: ".to_owned().concat(d.as_str())
            },
            Error::ImageError(e) => {
                proof {
                    reveal_strlit("Image error: ");
                }
                let cause = image_cause_text(e);
                let r = "Image error: ".to_owned().concat(cause.as_str());
                proof {
                    assert(r@ == "Image error: "@ + cause@);
                }
                r
            },
            Error::NoBulkEndpoint => {
                proof {
                    reveal_strlit("No bulk endpoint could be found");
                }
                "No bulk endpoint could be found".to_owned()
            },
            Error::NoReplacementFound(r) => {
                proof {
                    reveal_strlit("Could not find replacement for tag {");
                }
                "Could not find replacement for tag {".to_owned().concat(r.as_str()).concat("}")
            },
            Error::NoPrintData => {
                proof {
                    reveal_strlit("Print data must be supplied for this instruction");
                }
                "Print data must be supplied for this instruction".to_owned()
            },
            Error::PrinterError(d) => {
                proof {
                    reveal_strlit("An error occured while printing, ");
                }
                "An error occured while printing, ".to_owned().concat(d.as_str())
            },
            Error::WrongMarkdown => {
                proof {
                    reveal_strlit("Incorrect markdown structure");
                }
                "Incorrect markdown structure".to_owned()
            },
            Error::NoTables => {
                proof {
                    reveal_strlit("Not a single table was found in the PrintData structure");
                }
                "Not a single table was found in the PrintData structure".to_owned()
            },
            Error::NoTableFound(t) => {
                proof {
                    reveal_strlit("No table was found for id {");
                }
                "No table was found for id {".to_owned().concat(t.as_str()).concat("}")
            },
            Error::NoWidth => {
                proof {
                    reveal_strlit("No width was found for the selected font");
                }
                "No width was found for the selected font".to_owned()
            },
            Error::NoQrContent(n) => {
                proof {
                    reveal_strlit("Could not find qr code content for \"");
                }
                "Could not find qr code content for \"".to_owned().concat(n.as_str()).concat(
                    "\"",
                )
            },
            Error::NoQrContents => {
                proof {
                    reveal_strlit("Could not find qr contents");
                }
                "Could not find qr contents".to_owned()
            },
            Error::Encoding => {
                proof {
                    reveal_strlit("An unsupported utf-8 character was found when passing to cp437");
                }
                "An unsupported utf-8 character was found when passing to cp437".to_owned()
            },
        }
    }
}

} // verus!
