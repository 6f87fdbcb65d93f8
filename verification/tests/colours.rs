use expense_plot::colours::{colours_for, colours_from_detection, detect_colours, ColourError, ColourScheme, Rgb, Rgba};

#[test]
fn dark_palette() {
    let c = colours_for(ColourScheme::Dark);
    assert_eq!(c.text, Rgb { red: 0xe0, green: 0xde, blue: 0xf4 });
    assert_eq!(c.background, Rgb { red: 0x19, green: 0x17, blue: 0x24 });
    assert_eq!(c.border, Rgb { red: 0x52, green: 0x4f, blue: 0x67 });
    assert_eq!(c.bold_grid, Rgb { red: 0x40, green: 0x3d, blue: 0x52 });
    assert_eq!(c.light_grid, Rgb { red: 0x21, green: 0x20, blue: 0x2e });
    assert_eq!(c.graph, Rgb { red: 0xeb, green: 0x6f, blue: 0x92 });
}

#[test]
fn light_and_unspecified_palettes() {
    for scheme in [ColourScheme::Light, ColourScheme::Unspecified] {
        let c = colours_for(scheme);
        assert_eq!(c.text, Rgb { red: 0x57, green: 0x52, blue: 0x79 });
        assert_eq!(c.background, Rgb { red: 0xfa, green: 0xf4, blue: 0xed });
        assert_eq!(c.border, Rgb { red: 0xce, green: 0xca, blue: 0xcd });
        assert_eq!(c.bold_grid, Rgb { red: 0xdf, green: 0xda, blue: 0xd9 });
        assert_eq!(c.light_grid, Rgb { red: 0xf4, green: 0xed, blue: 0xe8 });
        assert_eq!(c.graph, Rgb { red: 0xb4, green: 0x63, blue: 0x7a });
    }
}

#[test]
fn rgba_makes_colours_opaque() {
    let c = colours_for(ColourScheme::Dark).rgba();
    assert_eq!(c.background, Rgba { red: 0x19, green: 0x17, blue: 0x24, alpha: 255 });
    assert_eq!(c.graph, Rgba { red: 0xeb, green: 0x6f, blue: 0x92, alpha: 255 });
    let l = colours_for(ColourScheme::Light).rgba();
    assert_eq!(l.text, Rgba { red: 0x57, green: 0x52, blue: 0x79, alpha: 255 });
}

#[test]
fn map_applies_to_every_colour() {
    let c = colours_for(ColourScheme::Light).map(|c: Rgb| c.red as u32 + c.green as u32 + c.blue as u32);
    assert_eq!(c.text, 0x57 + 0x52 + 0x79);
    assert_eq!(c.graph, 0xb4 + 0x63 + 0x7a);
    assert_eq!(c.border, 0xce + 0xca + 0xcd);
}

#[test]
fn detected_colours_are_a_palette() {
    if let Ok(c) = detect_colours() {
        let dark = colours_for(ColourScheme::Dark);
        let light = colours_for(ColourScheme::Light);
        assert!(c.text == dark.text || c.text == light.text);
        assert!(c.background == dark.background || c.background == light.background);
    }
}

#[test]
fn detection_outcomes() {
    let dark = colours_from_detection(Ok(ColourScheme::Dark)).unwrap();
    assert_eq!(dark.graph, Rgb { red: 0xeb, green: 0x6f, blue: 0x92 });
    let unspecified = colours_from_detection(Ok(ColourScheme::Unspecified)).unwrap();
    assert_eq!(unspecified.text, Rgb { red: 0x57, green: 0x52, blue: 0x79 });
    let failed = colours_from_detection(Err(dark_light::Error::Timeout));
    assert!(matches!(failed, Err(ColourError::Detection(dark_light::Error::Timeout))));
}

#[test]
fn map_identity_and_composition() {
    let c = colours_for(ColourScheme::Dark);
    let same = c.map(|x: Rgb| x);
    assert_eq!((same.text, same.graph, same.border), (c.text, c.graph, c.border));
    let f = |x: Rgb| x.red as u32;
    let g = |y: u32| y * 2 + 1;
    let twice = c.map(f).map(g);
    let once = c.map(|x: Rgb| g(f(x)));
    assert_eq!(
        (twice.text, twice.background, twice.border, twice.bold_grid, twice.light_grid, twice.graph),
        (once.text, once.background, once.border, once.bold_grid, once.light_grid, once.graph)
    );
}
