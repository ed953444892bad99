//! Wavenumber folding and the squared norm of a mode index.

use spectral::spectral::{fold_wavenumber, wavenumber_norm_sq};

#[test]
fn folding_wraps_the_negative_frequencies() {
    let folded: Vec<i64> = (0..8).map(|i| fold_wavenumber(i, 8)).collect();
    assert_eq!(folded, vec![0, 1, 2, 3, 4, -3, -2, -1]);

    assert_eq!(fold_wavenumber(0, 4), 0);
    assert_eq!(fold_wavenumber(2, 4), 2);
    assert_eq!(fold_wavenumber(3, 4), -1);
    assert_eq!(fold_wavenumber(0, 1), 0);
}

#[test]
fn norm_square_vanishes_only_on_the_zero_mode() {
    assert_eq!(wavenumber_norm_sq(0, 0, 0), 0);
    assert_eq!(wavenumber_norm_sq(1, -2, 3), 14);
    assert_eq!(wavenumber_norm_sq(-4, 0, 0), 16);
    assert!(wavenumber_norm_sq(0, 0, 1) != 0);
    assert!(wavenumber_norm_sq(0, -1, 0) != 0);
}
