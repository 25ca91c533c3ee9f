use fracantor::palette::{fixed_palette, gradient, preset_colors, two_tone, Rgb};
use fracantor::ConfigError;

#[test]
fn two_tone_is_black_then_white() {
    let p = two_tone();
    assert_eq!(p.len(), 2);
    assert_eq!(p.colors[0], Rgb { r: 0, g: 0, b: 0 });
    assert_eq!(p.colors[1], Rgb { r: 255, g: 255, b: 255 });
}

#[test]
fn fixed_palette_keeps_colors_and_rejects_bad_sizes() {
    let colors = vec![Rgb { r: 1, g: 2, b: 3 }, Rgb { r: 4, g: 5, b: 6 }];
    let p = fixed_palette(&colors).unwrap();
    assert_eq!(p.colors, colors);
    assert_eq!(
        fixed_palette(&Vec::new()).unwrap_err(),
        ConfigError::BadPaletteSize
    );
    let too_many = vec![Rgb { r: 0, g: 0, b: 0 }; 257];
    assert_eq!(fixed_palette(&too_many).unwrap_err(), ConfigError::BadPaletteSize);
    assert!(fixed_palette(&vec![Rgb { r: 0, g: 0, b: 0 }; 256]).is_ok());
}

#[test]
fn gradient_is_deterministic_and_sized() {
    let a = gradient(256).unwrap();
    let b = gradient(256).unwrap();
    assert_eq!(a.colors, b.colors);
    assert_eq!(a.len(), 256);
    assert_eq!(gradient(0).unwrap_err(), ConfigError::BadPaletteSize);
    assert_eq!(gradient(257).unwrap_err(), ConfigError::BadPaletteSize);
}

#[test]
fn gradient_neighbors_stay_close() {
    let p = gradient(256).unwrap();
    for i in 1..256usize {
        let a = p.colors[i - 1];
        let b = p.colors[i];
        let d = (a.r as i32 - b.r as i32).abs()
            + (a.g as i32 - b.g as i32).abs()
            + (a.b as i32 - b.b as i32).abs();
        assert!(d <= 18);
    }
}

#[test]
fn gradient_first_entry_matches_the_waves() {
    let p = gradient(4).unwrap();
    // Index 0: waves at phases 0, 85 and 170.
    assert_eq!(p.colors[0], Rgb { r: 0, g: 170, b: 170 });
}

#[test]
fn palette_bytes_are_flat_triples() {
    let p = two_tone();
    let bytes = p.to_bytes();
    assert_eq!(bytes, vec![0, 0, 0, 255, 255, 255]);
}

#[test]
fn five_preset_fill_colors() {
    let v = preset_colors();
    assert_eq!(v.len(), 5);
    assert_eq!(v[0], Rgb { r: 239, g: 71, b: 111 });
    assert_eq!(v[4], Rgb { r: 155, g: 111, b: 242 });
}
