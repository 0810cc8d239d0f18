use escpos_rust::Error;

fn io_failure(text: &str) -> image::ImageError {
    image::ImageError::IoError(std::io::Error::new(std::io::ErrorKind::Other, text.to_string()))
}

#[test]
fn libusb_message_embeds_description() {
    let e = Error::LibusbError("no device found".to_string());
    assert_eq!(e.message(), "Libusb error: no device found");
}

#[test]
fn cp437_message_embeds_fragment() {
    let e = Error::CP437Error("ñandú".to_string());
    assert_eq!(e.message(), "CP437 error: ñandú");
}

#[test]
fn image_message_embeds_cause_rendering() {
    let e = Error::ImageError(io_failure("corrupt header"));
    assert_eq!(e.message(), "Image error: corrupt header");
}

#[test]
fn no_bulk_endpoint_message() {
    assert_eq!(
        Error::NoBulkEndpoint.message(),
        "No bulk endpoint could be found"
    );
}

#[test]
fn no_replacement_found_message_names_the_tag() {
    let e = Error::NoReplacementFound("width".to_string());
    let m = e.message();
    assert_eq!(m, "Could not find replacement for tag {width}");
    assert!(m.contains("width"));
}

#[test]
fn no_print_data_message() {
    assert_eq!(
        Error::NoPrintData.message(),
        "Print data must be supplied for this instruction"
    );
}

#[test]
fn printer_error_message_embeds_detail() {
    let e = Error::PrinterError("paper jam".to_string());
    assert_eq!(e.message(), "An error occured while printing, paper jam");
}

#[test]
fn wrong_markdown_message() {
    assert_eq!(Error::WrongMarkdown.message(), "Incorrect markdown structure");
}

#[test]
fn no_tables_message() {
    assert_eq!(
        Error::NoTables.message(),
        "Not a single table was found in the PrintData structure"
    );
}

#[test]
fn no_table_found_message_names_the_id() {
    let e = Error::NoTableFound("orders".to_string());
    assert_eq!(e.message(), "No table was found for id {orders}");
}

#[test]
fn no_width_message() {
    assert_eq!(
        Error::NoWidth.message(),
        "No width was found for the selected font"
    );
}

#[test]
fn no_qr_content_message_names_the_label() {
    let e = Error::NoQrContent("logo".to_string());
    assert_eq!(e.message(), "Could not find qr code content for \"logo\"");
}

#[test]
fn no_qr_contents_message() {
    assert_eq!(Error::NoQrContents.message(), "Could not find qr contents");
}

#[test]
fn encoding_message() {
    assert_eq!(
        Error::Encoding.message(),
        "An unsupported utf-8 character was found when passing to cp437"
    );
}

#[test]
fn rendering_is_total_for_awkward_payloads() {
    let payloads = ["", "{}", "{{{}}}", "%s%d", "a\nb", "\"quoted\""];
    for p in payloads {
        for e in [
            Error::LibusbError(p.to_string()),
            Error::CP437Error(p.to_string()),
            Error::NoReplacementFound(p.to_string()),
            Error::PrinterError(p.to_string()),
            Error::NoTableFound(p.to_string()),
            Error::NoQrContent(p.to_string()),
        ] {
            let m = e.message();
            assert!(!m.is_empty());
            assert!(m.contains(p));
        }
    }
    let m = Error::ImageError(io_failure("{}")).message();
    assert!(!m.is_empty());
    assert!(m.starts_with("Image error: "));
}

#[test]
fn variants_are_distinguishable_structurally() {
    let e = Error::NoTableFound("orders".to_string());
    assert!(matches!(e, Error::NoTableFound(ref id) if id == "orders"));
    assert!(!matches!(e, Error::NoTables));
    match Error::ImageError(io_failure("x")) {
        Error::ImageError(cause) => {
            assert_eq!(format!("{cause}"), "x");
        }
        _ => unreachable!(),
    }
}
