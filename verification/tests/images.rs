//! Pictures: what they are, what is sent of them, and where a clipboard says they are.

use neosh::images::clipboard::{
    clipboard_readers, denied_line, hear, just_empty, offer, offer_readers, reader_names,
    text_readers, Heard, Offer, Platform, Trouble,
};
use neosh::images::hunting::{
    clipboard_picture, clipboard_references, from_clipboard, unreachable_host, unreadable_file,
    Fetch, Flavour,
};
use neosh::images::keeping::keep;
use neosh::images::naming::{data_url, fetchable, img_srcs, named_in, plain_named, resolve, Named};
use neosh::images::pasting::{dragged_path, pasted_path};
use neosh::images::{human, sniff, Attachment, Clipped, MAX_BYTES, MAX_EDGE, MAX_FETCH};

/// A one-pixel PNG, so the tests exercise the real decoder rather than a shape.
fn pixel() -> Vec<u8> {
    let img = image::RgbaImage::from_pixel(1, 1, image::Rgba([1, 2, 3, 255]));
    encoded(image::DynamicImage::ImageRgba8(img), image::ImageFormat::Png)
}

fn encoded(img: image::DynamicImage, format: image::ImageFormat) -> Vec<u8> {
    let mut out = Vec::new();
    img.write_to(&mut std::io::Cursor::new(&mut out), format).expect("encode");
    out
}

fn chars(s: &str) -> Vec<char> {
    s.chars().collect()
}

#[test]
fn what_it_is_is_read_off_the_bytes_and_not_off_the_name() {
    assert_eq!(sniff(&pixel()), Some("image/png"));
    assert_eq!(sniff(&[0xff, 0xd8, 0xff, 0x00]), Some("image/jpeg"));
    assert_eq!(sniff(b"GIF89a...."), Some("image/gif"));
    assert_eq!(sniff(b"RIFF\0\0\0\0WEBPVP8 "), Some("image/webp"));
    // The one that matters: a provider told this was a PNG would reject the turn.
    assert_eq!(sniff(b"%PDF-1.4"), None, "a PDF is not one of the four");
    assert_eq!(sniff(b"hello"), None);
}

#[test]
fn an_image_small_enough_already_is_written_through_untouched() {
    let bytes = pixel();
    let (got, kept) = keep("/store/through", bytes.clone()).expect("kept");
    assert_eq!(got.media_type, "image/png");
    assert_eq!((got.width, got.height), (1, 1));
    assert_eq!(kept, bytes, "re-encoding a screenshot of text is how it gets blurrier for nothing");
    assert!(got.path.starts_with("/store/through/"), "{}", got.path);
    assert!(got.path.ends_with(".png"), "{}", got.path);
    let (again, _) = keep("/store/through", bytes).expect("kept");
    assert_ne!(got.path, again.path, "each has a place of its own");
}

#[test]
fn something_that_is_not_an_image_is_refused_here_rather_than_on_the_wire() {
    let err = keep("/store/refuse", b"#!/bin/sh\necho hi\n".to_vec()).expect_err("refused");
    assert!(err.contains("not an image"), "{err}");
}

#[test]
fn a_picture_that_breaks_off_says_which_kind_could_not_be_read() {
    let mut bytes = pixel();
    bytes.truncate(20);
    let err = keep("/store/broken", bytes).expect_err("refused");
    assert!(err.starts_with("could not read the png: "), "{err}");
}

#[test]
fn a_huge_one_is_brought_down_to_a_size_worth_sending() {
    let big = image::RgbaImage::from_pixel(4000, 2000, image::Rgba([9, 9, 9, 255]));
    let bytes = encoded(image::DynamicImage::ImageRgba8(big), image::ImageFormat::Png);
    let (got, kept) = keep("/store/shrink", bytes).expect("kept");
    assert_eq!(got.width, MAX_EDGE, "the long edge is what is clamped");
    assert_eq!(got.height, MAX_EDGE / 2, "and the aspect ratio survives it");
    assert_eq!(got.bytes, kept.len());
}

/// What a paste comes to where some files are there.
fn pasted(text: &str, there: &[(&str, Vec<u8>)]) -> Option<String> {
    let at = dragged_path(text, None);
    let file = there.iter().find(|(name, _)| at.as_deref() == Some(*name));
    pasted_path(text, None, file.map(|(_, bytes)| bytes.as_slice()))
}

#[test]
fn a_pasted_path_is_only_a_path_when_it_is_unambiguously_one() {
    let file = "/tmp/paste/shot.png";
    let notes = "/tmp/paste/notes.txt";
    let fake = "/tmp/paste/fake.png";
    let there = [(file, pixel()), (notes, b"hello".to_vec()), (fake, b"hello".to_vec())];

    assert_eq!(pasted(file, &there).as_deref(), Some(file));
    // The three shapes a drag produces.
    assert_eq!(pasted(&format!("\"{file}\""), &there).as_deref(), Some(file));
    assert_eq!(pasted(&format!("'{file}'"), &there).as_deref(), Some(file));
    assert_eq!(pasted(&format!("file://{file}"), &there).as_deref(), Some(file));

    // And the things that are sentences. Every one of these would be text eaten by a gesture
    // nobody made.
    assert_eq!(pasted("have a look at shot.png", &there), None, "a sentence is not a path");
    assert_eq!(pasted(&format!("{file} and this"), &there), None);
    assert_eq!(pasted("/nope/missing.png", &there), None, "a path to nothing is text");
    assert_eq!(pasted_path("/nope/missing.png", None, None), None, "a path to nothing is text");
    assert_eq!(pasted("", &there), None);

    // A file that exists but is not one of the four we can send.
    assert_eq!(pasted(notes, &there), None);
    assert_eq!(pasted_path(notes, None, Some(&pixel())), None, "whatever is in it");
    // A file that is called what a picture is called, and is not one.
    assert_eq!(pasted(fake, &there), None);
}

#[test]
fn a_pasted_path_may_begin_at_home() {
    assert_eq!(
        pasted_path("~/shot.png", Some("/home/a"), Some(&pixel())).as_deref(),
        Some("/home/a/shot.png")
    );
}

#[test]
fn a_space_survives_both_ways_a_drag_can_escape_it() {
    let file = "/tmp/space/my shot.png";
    let there = [(file, pixel())];
    assert_eq!(
        pasted(&format!("file://{}", file.replace(' ', "%20")), &there).as_deref(),
        Some(file)
    );
    assert_eq!(pasted(&file.replace(' ', "\\ "), &there).as_deref(), Some(file));
}

#[test]
fn what_a_url_escapes_is_read_as_utf8() {
    let there = [("/tmp/caf\u{e9}.png", pixel())];
    assert_eq!(pasted("file:///tmp/caf%C3%A9.png", &there).as_deref(), Some("/tmp/caf\u{e9}.png"));
    assert_eq!(pasted("file:///tmp/caf\u{e9}.png", &there).as_deref(), Some("/tmp/caf\u{e9}.png"));
    // Bytes that are no text are a character each.
    assert_eq!(
        dragged_path("file:///tmp/caf%E9.png", None).as_deref(),
        Some("/tmp/caf\u{e9}.png")
    );
}

#[test]
fn png_comes_before_jpeg_and_jpeg_before_the_rest() {
    let offer =
        Offer { reader: "wl-paste", types: vec!["image/webp".into(), "image/jpeg".into()] };
    assert_eq!(offer.picture(), Some("image/jpeg"));
    let rest = Offer { reader: "wl-paste", types: vec!["image/bmp".into(), "image/webp".into()] };
    assert_eq!(rest.picture(), Some("image/webp"));
}

#[test]
fn what_is_brought_down_is_a_picture_of_the_size_it_says() {
    let tall = image::RgbImage::from_pixel(300, 3001, image::Rgb([9, 9, 9]));
    let bytes = encoded(image::DynamicImage::ImageRgb8(tall), image::ImageFormat::Bmp);
    let (got, kept) = keep("/store/tall", bytes).expect("kept");
    // 300 * 1568 / 3001, rounded.
    assert_eq!((got.width, got.height), (157, MAX_EDGE));
    assert_eq!(sniff(&kept), Some("image/png"));
    let again = image::load_from_memory(&kept).expect("it can be read again");
    assert_eq!((again.width(), again.height()), (157, MAX_EDGE));
    let line = image::RgbImage::from_pixel(9000, 1, image::Rgb([9, 9, 9]));
    let bytes = encoded(image::DynamicImage::ImageRgb8(line), image::ImageFormat::Png);
    let (got, _) = keep("/store/line", bytes).expect("kept");
    assert_eq!((got.width, got.height), (MAX_EDGE, 1), "never less than a pixel");
}

#[test]
fn the_type_asked_for_is_one_the_clipboard_said_it_had() {
    // A JPEG copied out of an image viewer. Asking for `image/png` and nothing else is how
    // this used to come back as "nothing on the clipboard that is an image".
    let offer = Offer {
        reader: "wl-paste",
        types: vec!["text/html".into(), "image/jpeg".into(), "text/plain".into()],
    };
    assert_eq!(offer.picture(), Some("image/jpeg"));

    // Several on offer is a program that has ranked nothing, so the ranking is ours: PNG over
    // JPEG, because it is the one that has not already thrown pixels away.
    let browser = Offer {
        reader: "wl-paste",
        types: vec!["image/jpeg".into(), "image/png".into(), "text/html".into()],
    };
    assert_eq!(browser.picture(), Some("image/png"));

    // Exactly as offered, capitals and parameters and all: a request for `image/x-ms-bmp`
    // against an X11 clipboard offering `image/x-MS-bmp` gets nothing back.
    let x11 = Offer { reader: "xclip", types: vec!["TARGETS".into(), "image/x-MS-bmp".into()] };
    assert_eq!(x11.picture(), Some("image/x-MS-bmp"));
    let with_params = Offer { reader: "wl-paste", types: vec!["image/png;charset=binary".into()] };
    assert_eq!(with_params.picture(), Some("image/png;charset=binary"));

    // Nothing here can open an SVG, and offering to take one turns "no picture" into "a
    // picture that failed".
    let vector = Offer { reader: "wl-paste", types: vec!["image/svg+xml".into()] };
    assert_eq!(vector.picture(), None);
}

#[test]
fn a_picture_on_offer_is_asked_for_in_the_words_its_program_takes() {
    let way = Offer { reader: "wl-paste", types: vec!["image/gif".into()] };
    let c = clipboard_picture(&way).expect("a picture");
    assert_eq!(c.program, "wl-paste");
    assert_eq!(c.args, vec!["--no-newline", "--type", "image/gif"]);
    let x11 = Offer { reader: "xclip", types: vec!["image/gif".into()] };
    let c = clipboard_picture(&x11).expect("a picture");
    assert_eq!(c.args, vec!["-selection", "clipboard", "-t", "image/gif", "-o"]);
    assert!(clipboard_picture(&Offer { reader: "xclip", types: vec![] }).is_none());
}

#[test]
fn a_page_that_only_named_a_picture_still_gives_one_up() {
    // What a browser leaves on the clipboard when you copy an image off a page.
    let html = "<meta charset=\"utf-8\"><img src=\"https://example.com/a%20cat.png?w=800&amp;h=600\" alt=\"a cat\">";
    assert_eq!(
        img_srcs(html),
        vec!["https://example.com/a%20cat.png?w=800&h=600".to_string()],
        "the entity is part of the markup, not of the URL"
    );

    // Relative is dropped rather than guessed at: the fragment carries no base, and a wrong
    // URL is a request to somebody who did not ask for one.
    assert!(img_srcs("<img src=\"/img/logo.png\">").is_empty());

    // `srcset` and `data-src` are not `src`.
    assert!(
        img_srcs("<img srcset=\"https://example.com/2x.png 2x\" data-src=\"https://example.com/lazy.png\">")
            .is_empty()
    );
    assert_eq!(
        img_srcs("<img srcset=\"https://example.com/2x.png 2x\" src=\"https://example.com/1x.png\">"),
        vec!["https://example.com/1x.png".to_string()]
    );

    // Unquoted, and more than one.
    assert_eq!(
        img_srcs(
            "<img src=https://example.com/one.png><p>and</p><img src='https://example.com/two.png'>"
        ),
        vec!["https://example.com/one.png".to_string(), "https://example.com/two.png".to_string()]
    );
}

#[test]
fn a_line_of_text_is_only_a_picture_when_it_is_unmistakably_one() {
    assert_eq!(
        plain_named("https://example.com/cat.png", false).as_deref(),
        Some("https://example.com/cat.png")
    );
    assert_eq!(
        plain_named("  https://example.com/deep/path/cat.JPEG  ", false).as_deref(),
        Some("https://example.com/deep/path/cat.JPEG"),
        "an extension is a name, and names are not case"
    );
    // An ordinary link is not a reason to make a request to it.
    assert_eq!(plain_named("https://example.com/an/article", false), None);
    assert_eq!(plain_named("have a look at https://example.com/cat.png", false), None);
    assert_eq!(plain_named("a sentence", false), None);
    assert_eq!(plain_named("", false), None);
}

#[test]
fn what_a_browser_leaves_behind_is_read_in_the_order_we_trust_it() {
    let file = "/tmp/uri-list/shot.png";

    // A file manager's copy.
    assert_eq!(
        named_in("text/uri-list", &format!("# a comment\nfile://{file}\n"), false),
        vec![format!("file://{file}")]
    );
    // And it comes back as the file it names.
    let named = format!("file://{file}");
    match resolve(&named, pasted(&named, &[(file, pixel())])) {
        Some(Named::File(path)) => assert_eq!(path, file),
        _ => panic!("that is the file it names"),
    }

    // A page's picture is somewhere else, and saying so is not fetching it.
    match resolve("https://example.com/cat.png", pasted("https://example.com/cat.png", &[(file, pixel())])) {
        Some(Named::Remote(url)) => assert_eq!(url, "https://example.com/cat.png"),
        _ => panic!("that is a picture on somebody's server"),
    }
    // Things that name nothing get out of the way of the next candidate.
    assert!(resolve("just some text", None).is_none());
    assert!(resolve("mailto:someone@example.com", None).is_none());

    let flavours = vec![
        Flavour { kind: "text/uri-list", text: "file:///a.png\n".into(), on_disk: false },
        Flavour {
            kind: "text/html",
            text: "<img src=\"https://example.com/b.png\">".into(),
            on_disk: false,
        },
    ];
    assert_eq!(clipboard_references(&flavours), vec!["file:///a.png", "https://example.com/b.png"]);
}

#[test]
fn a_data_url_is_a_picture_that_needs_no_network() {
    let packed = base64::Engine::encode(&base64::engine::general_purpose::STANDARD, pixel());
    // Wrapped, which is how a long one survives being put on a clipboard.
    let wrapped = format!("image/png;base64,{}\n{}", &packed[..8], &packed[8..]);
    let bytes = data_url(&chars(&wrapped)).expect("a picture");
    let (got, _) = keep("/store/data-url", bytes).expect("kept");
    assert_eq!(got.media_type, "image/png");
    assert_eq!((got.width, got.height), (1, 1));
    // The type in the URL is what somebody wrote; the bytes are what they encoded.
    let lying = format!(
        "image/png;base64,{}",
        base64::Engine::encode(&base64::engine::general_purpose::STANDARD, b"#!/bin/sh\n")
    );
    assert!(data_url(&chars(&lying)).and_then(|b| keep("/store/data-url", b)).is_err());
}

#[test]
fn a_data_url_with_nothing_to_read_says_why() {
    assert_eq!(
        data_url(&chars("image/png;base64")).expect_err("no comma"),
        "that data: URL has no data in it"
    );
    assert_eq!(
        data_url(&chars("image/png,abc")).expect_err("not base64"),
        "that data: URL is not base64, so it is not a picture"
    );
    let err = data_url(&chars("image/png;base64,@@@@")).expect_err("not base64 either");
    assert!(err.starts_with("could not read that data: URL: "), "{err}");
}

#[test]
fn a_picture_too_busy_to_be_a_png_is_sent_as_a_jpeg() {
    // A photograph's worth of detail, at a size nothing will shrink: the PNG of it is over
    // what a turn can carry.
    let mut noise = image::RgbImage::new(MAX_EDGE, MAX_EDGE);
    let mut seed: u32 = 0x1234_5678;
    for pixel in noise.pixels_mut() {
        seed = seed.wrapping_mul(1_664_525).wrapping_add(1_013_904_223);
        let b = seed.to_le_bytes();
        *pixel = image::Rgb([b[0], b[1], b[2]]);
    }
    let bytes = encoded(image::DynamicImage::ImageRgb8(noise), image::ImageFormat::Png);
    assert!(bytes.len() > MAX_BYTES, "the test's own premise: {} bytes", bytes.len());

    let (got, kept) = keep("/store/jpeg", bytes).expect("kept");
    assert_eq!(got.media_type, "image/jpeg");
    assert_eq!(sniff(&kept), Some("image/jpeg"));
    let again = image::load_from_memory(&kept).expect("it can be read again");
    assert_eq!((again.width(), again.height()), (got.width, got.height));
    assert_eq!((got.width, got.height), (MAX_EDGE, MAX_EDGE), "nothing was thrown away to fit");
    assert!(got.bytes <= MAX_BYTES, "{} bytes is still more than a turn can carry", got.bytes);
}

#[test]
fn something_openable_that_nothing_can_be_sent_is_re_encoded_rather_than_refused() {
    // What an X11 application puts on the clipboard. No provider takes a BMP and every
    // decoder opens one.
    let img = image::RgbaImage::from_pixel(2, 2, image::Rgba([7, 8, 9, 255]));
    let bmp = encoded(image::DynamicImage::ImageRgba8(img), image::ImageFormat::Bmp);
    assert_eq!(sniff(&bmp), None, "the test's own premise");

    let (got, _) = keep("/store/bmp", bmp).expect("kept");
    assert_eq!(got.media_type, "image/png");
    assert_eq!((got.width, got.height), (2, 2));
}

fn attachment(bytes: usize) -> Attachment {
    Attachment {
        path: "/x/y.png".into(),
        media_type: "image/png".into(),
        width: 1920,
        height: 1080,
        bytes,
    }
}

#[test]
fn the_chip_says_the_things_you_cannot_see_for_yourself() {
    assert_eq!(attachment(421_888).label(), "png 1920\u{d7}1080 \u{b7} 412 KB");
}

#[test]
fn a_size_is_said_the_way_a_float_would_round_it() {
    for bytes in [
        0usize,
        1,
        1023,
        1024,
        1_048_575,
        1_048_576,
        1_100_000,
        1_101_004,
        1_101_005,
        1_153_434,
        // Exactly half way between two tenths.
        1_310_720,
        1_835_008,
        25_000_000,
        123_456_789,
    ] {
        let want = if bytes >= 1024 * 1024 {
            format!("{:.1} MB", bytes as f64 / (1024.0 * 1024.0))
        } else if bytes >= 1024 {
            format!("{} KB", bytes / 1024)
        } else {
            format!("{bytes} B")
        };
        assert_eq!(human(bytes), want, "{bytes}");
    }
}

#[test]
fn a_clipboard_is_asked_what_it_holds() {
    let mut trouble = Trouble::default();
    let got = offer("wl-paste", true, " text/html \n\nimage/png\n", "", &mut trouble).expect("one");
    assert_eq!(got.types, vec!["text/html", "image/png"]);
    assert!(trouble.asked);
    assert!(offer("xclip", false, "", "\n  Error: no display \n", &mut trouble).is_none());
    assert_eq!(trouble.said, vec!["xclip: Error: no display"]);
    assert!(offer("wl-paste", false, "", "Nothing is copied", &mut trouble).is_none());
    assert_eq!(trouble.said.len(), 1, "an empty clipboard is not a problem with it");
    assert_eq!(offer_readers().len(), 2);
    assert!(just_empty(&chars("target image/png NOT AVAILABLE")));
}

#[test]
fn a_refusal_is_the_one_complaint_worth_repeating() {
    assert_eq!(denied_line("execution error: -1700\n"), None);
    assert_eq!(
        denied_line("  \nNot authorized to send Apple events (-1743)\n").as_deref(),
        Some("Not authorized to send Apple events (-1743)")
    );
    let mut trouble = Trouble::default();
    assert!(matches!(
        hear("osascript", false, b"", None, "Permission denied", &mut trouble),
        Heard::Nothing
    ));
    assert!(trouble.denied);
    assert_eq!(
        trouble.into_message(Platform::Mac, "Ghostty"),
        "could not read the clipboard: osascript: Permission denied \u{2014} macOS refused Ghostty; allow it when the prompt appears, or under System Settings \u{203a} Privacy & Security"
    );
}

#[test]
fn what_a_program_hands_over_is_a_path_or_the_picture() {
    let mut trouble = Trouble::default();
    assert!(matches!(
        hear("osascript", true, b"/tmp/a.png\n", Some("/tmp/a.png\n"), "", &mut trouble),
        Heard::Path(p) if p == "/tmp/a.png"
    ));
    let png = pixel();
    assert!(matches!(hear("pngpaste", true, &png, None, "", &mut trouble), Heard::Bytes));
    assert_eq!(clipboard_readers(Platform::Mac).len(), 3);
    assert_eq!(clipboard_readers(Platform::Other).len(), 0);
    assert_eq!(text_readers(Platform::Windows).len(), 1);
    assert_eq!(reader_names(Platform::Other), vec!["wl-paste", "xclip"]);
}

#[test]
fn the_picture_comes_before_what_names_one_and_trouble_comes_last() {
    let image = || Some(Ok(Clipped::Image(attachment(1), vec![7])));
    let named = || vec![None, Some(Ok(Clipped::Remote("https://example.com/a.png".into())))];
    assert!(matches!(
        from_clipboard(image(), named(), Trouble::default(), Platform::Other, ""),
        Ok(Clipped::Image(_, _))
    ));
    assert!(matches!(
        from_clipboard(None, named(), Trouble::default(), Platform::Other, ""),
        Ok(Clipped::Remote(u)) if u == "https://example.com/a.png"
    ));
    assert_eq!(
        from_clipboard(None, vec![], Trouble::default(), Platform::Windows, "")
            .expect_err("nothing to ask"),
        "no clipboard tool to read an image with \u{2014} install one of powershell"
    );
    let asked = Trouble { asked: true, said: vec![], denied: false };
    assert_eq!(
        from_clipboard(None, vec![None], asked, Platform::Other, "").expect_err("nothing there"),
        "nothing on the clipboard that is an image"
    );
}

#[test]
fn only_an_address_is_fetched() {
    assert_eq!(
        fetchable("https://example.com/a b.png").expect("an address"),
        ("https://example.com/a%20b.png".to_string(), "example.com".to_string())
    );
    assert_eq!(fetchable("ftp://example.com/a").expect_err("no"), "ftp: not a thing to fetch");
    let err = fetchable("nonsense").expect_err("no");
    assert!(err.starts_with("nonsense: "), "{err}");
}

#[test]
fn a_fetch_stops_at_what_one_picture_may_be() {
    assert_eq!(
        Fetch::begin("h".into(), Some("403 Forbidden"), None).expect_err("refused"),
        "h said 403 Forbidden"
    );
    assert_eq!(
        Fetch::begin("h".into(), None, Some(MAX_FETCH + 1)).expect_err("too big"),
        "h is offering more than 23.8 MB of picture"
    );
    let mut f = Fetch::begin("h".into(), None, Some(MAX_FETCH)).expect("begun");
    f.take(&[1, 2]).expect("room");
    f.take(&[3]).expect("room");
    assert_eq!(f.bytes, vec![1, 2, 3]);
    assert_eq!(f.stopped("gone"), "h stopped sending: gone");
    let rest = vec![0u8; MAX_FETCH as usize - 2];
    assert_eq!(f.take(&rest).expect_err("no room"), "that is more than 23.8 MB of picture");
    assert_eq!(f.bytes.len(), 3);
    assert_eq!(unreachable_host("h", "e"), "could not reach h: e");
    assert_eq!(unreadable_file("/a", "e"), "could not read /a: e");
}
