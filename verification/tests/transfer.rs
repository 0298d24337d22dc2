use fm::transfer::{summarize, Active, Fraction};

/// How far a bar is filled, as the widget wants it.
fn filled(fraction: Option<Fraction>) -> Option<f64> {
    fraction.map(|fraction| fraction.part as f64 / fraction.whole as f64)
}

fn transfer(description: &str, current: i64, total: i64) -> Active {
    Active {
        description: description.to_owned(),
        current,
        total,
    }
}

#[test]
fn nothing_running_hides_the_indicator() {
    // Not "a bar at zero" — the caller must be able to tell the difference.
    assert_eq!(summarize(&[]), None);
}

#[test]
fn a_single_transfer_is_named() {
    let (description, fraction) =
        summarize(&[transfer("Copying 'pelicula.mkv'", 1, 4)]).unwrap();
    assert_eq!(description, "Copying 'pelicula.mkv'");
    assert_eq!(filled(fraction), Some(0.25));
}

#[test]
fn several_transfers_are_counted_instead_of_named() {
    // Naming one of three would claim the other two are not happening.
    let (description, _) = summarize(&[
        transfer("Copying 'a'", 0, 1),
        transfer("Moving 'b'", 0, 1),
        transfer("Copying 'c'", 0, 1),
    ])
    .unwrap();
    assert_eq!(description, "3 transfers");
}

#[test]
fn several_transfers_share_one_fraction() {
    let (_, fraction) = summarize(&[
        transfer("Copying 'a'", 50, 100),
        transfer("Copying 'b'", 25, 100),
    ])
    .unwrap();
    assert_eq!(filled(fraction), Some(0.375));
}

#[test]
fn an_unknown_total_is_indeterminate_not_a_division() {
    // Dividing by zero gives NaN, which GTK paints as a bar frozen at
    // nothing while the copy plainly runs.
    let (_, fraction) = summarize(&[transfer("Copying 'x'", 0, 0)]).unwrap();
    assert_eq!(filled(fraction), None);
}

#[test]
fn a_copy_that_has_reported_no_bytes_yet_is_indeterminate() {
    // The same-filesystem case: `copy_file_range` reports the total up
    // front and then nothing until it is finished. Zero of three gigabytes
    // is not "0% done", it is "no idea yet".
    let (_, fraction) = summarize(&[transfer("Copying 'huge.bin'", 0, 3_000_000_000)]).unwrap();
    assert_eq!(filled(fraction), None);
}

#[test]
fn a_fraction_never_leaves_its_bar() {
    // A copy can report more bytes than it predicted, on a sparse file or
    // a filesystem that pads. The bar must not overflow.
    let (_, fraction) = summarize(&[transfer("Copying 'x'", 120, 100)]).unwrap();
    assert_eq!(filled(fraction), Some(1.0));
}

#[test]
fn the_bar_is_kept_as_an_exact_fraction() {
    let (_, fraction) = summarize(&[transfer("x", 1, 3)]).unwrap();
    assert_eq!(fraction, Some(Fraction { part: 1, whole: 3 }));
    let (_, fraction) = summarize(&[transfer("x", 7, 3)]).unwrap();
    assert_eq!(fraction, Some(Fraction { part: 3, whole: 3 }));
}

#[test]
fn sums_beyond_one_counter_are_still_right() {
    let (description, fraction) = summarize(&[
        transfer("a", i64::MAX, i64::MAX),
        transfer("b", i64::MAX, i64::MAX),
    ])
    .unwrap();
    assert_eq!(description, "2 transfers");
    assert_eq!(
        fraction,
        Some(Fraction { part: 2 * i64::MAX as i128, whole: 2 * i64::MAX as i128 })
    );
}

#[test]
fn negative_reports_show_no_bar() {
    let (_, fraction) = summarize(&[transfer("x", -1, 100)]).unwrap();
    assert_eq!(fraction, None);
    let (_, fraction) = summarize(&[transfer("x", 5, -100)]).unwrap();
    assert_eq!(fraction, None);
}
