use picurator::filter::is_applicable_image;
use picurator::filter::is_eligible;
use picurator::filter::is_hidden;

#[test]
fn hidden_names() {
    assert!(is_hidden(b".cache"));
    assert!(is_hidden(b".git"));
    assert!(is_hidden(b"."));
    assert!(!is_hidden(b"photo.jpg"));
    assert!(!is_hidden(b""));
    assert!(!is_hidden(b"a.hidden"));
}

#[test]
fn recognized_extensions() {
    assert!(is_applicable_image(b"a.jpeg"));
    assert!(is_applicable_image(b"a.JPEG"));
    assert!(is_applicable_image(b"a.jpg"));
    assert!(is_applicable_image(b"a.JPG"));
    assert!(is_applicable_image(b"a.png"));
    assert!(is_applicable_image(b"a.PNG"));
}

#[test]
fn unrecognized_extensions() {
    assert!(!is_applicable_image(b"a.gif"));
    assert!(!is_applicable_image(b"a.Jpg"));
    assert!(!is_applicable_image(b"a.jpeg.txt"));
    assert!(!is_applicable_image(b"jpg"));
    assert!(!is_applicable_image(b""));
    assert!(!is_applicable_image(b"apng"));
}

#[test]
fn extension_without_stem_still_counts() {
    // The rule is a pure suffix test on the name's bytes.
    assert!(is_applicable_image(b".jpg"));
}

#[test]
fn eligibility_rules() {
    assert!(is_eligible(true, b"photo.jpg", 500));
    // hidden entries are out, even when everything else fits
    assert!(!is_eligible(true, b".photo.jpg", 500));
    // directories are out
    assert!(!is_eligible(false, b"photo.jpg", 500));
    // wrong extension is out
    assert!(!is_eligible(true, b"photo.tiff", 500));
    // zero-byte files are out
    assert!(!is_eligible(true, b"photo.jpg", 0));
}
