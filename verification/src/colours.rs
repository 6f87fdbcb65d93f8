//! The colour palettes of the viewer, one for a dark and one for a light
//! colour scheme, and the detection of the system's scheme.

use image::Pixel;
use vstd::prelude::*;

verus! {

/// A colour by its red, green and blue channels.
#[derive(Clone, Copy, Debug, PartialEq, Eq, Structural)]
pub struct Rgb {
    pub red: u8,
    pub green: u8,
    pub blue: u8,
}

/// A colour by its red, green, blue and alpha (opacity) channels.
#[derive(Clone, Copy, Debug, PartialEq, Eq, Structural)]
pub struct Rgba {
    pub red: u8,
    pub green: u8,
    pub blue: u8,
    pub alpha: u8,
}

/// One colour for each part of the screen.
#[derive(Copy, Debug)]
pub struct Colours<C> {
    pub text: C,
    pub background: C,
    pub border: C,
    pub bold_grid: C,
    pub light_grid: C,
    pub graph: C,
}

/// The colour scheme that the system prefers.
#[derive(Clone, Copy, Debug, PartialEq, Eq, Structural)]
pub enum ColourScheme {
    Dark,
    Light,
    Unspecified,
}

/// The opaque colour with the channels of `c`.
pub open spec fn opaque(c: Rgb) -> Rgba {
    Rgba { red: c.red, green: c.green, blue: c.blue, alpha: 255 }
}

/// The colour with the given channels.
pub open spec fn rgb(red: u8, green: u8, blue: u8) -> Rgb {
    Rgb { red, green, blue }
}

/// The palette for a dark colour scheme.
pub open spec fn dark_palette() -> Colours<Rgb> {
    Colours {
        text: rgb(0xe0, 0xde, 0xf4),
        background: rgb(0x19, 0x17, 0x24),
        border: rgb(0x52, 0x4f, 0x67),
        bold_grid: rgb(0x40, 0x3d, 0x52),
        light_grid: rgb(0x21, 0x20, 0x2e),
        graph: rgb(0xeb, 0x6f, 0x92),
    }
}

/// The palette for a light or unspecified colour scheme.
pub open spec fn light_palette() -> Colours<Rgb> {
    Colours {
        text: rgb(0x57, 0x52, 0x79),
        background: rgb(0xfa, 0xf4, 0xed),
        border: rgb(0xce, 0xca, 0xcd),
        bold_grid: rgb(0xdf, 0xda, 0xd9),
        light_grid: rgb(0xf4, 0xed, 0xe8),
        graph: rgb(0xb4, 0x63, 0x7a),
    }
}

/// The palette that the viewer uses under `scheme`.
pub open spec fn palette_for(scheme: ColourScheme) -> Colours<Rgb> {
    match scheme {
        ColourScheme::Dark => dark_palette(),
        ColourScheme::Light | ColourScheme::Unspecified => light_palette(),
    }
}

/// Each colour of `c` made opaque.
pub open spec fn opaque_colours(c: Colours<Rgb>) -> Colours<Rgba> {
    Colours {
        text: opaque(c.text),
        background: opaque(c.background),
        border: opaque(c.border),
        bold_grid: opaque(c.bold_grid),
        light_grid: opaque(c.light_grid),
        graph: opaque(c.graph),
    }
}

/// Calls `image::Pixel::to_rgba` on the `image::Rgb<u8>` with the channels
/// of `colour`: its source copies the three channels and sets alpha to the
/// maximum of `u8`.
#[verifier::external_body]
fn pixel_to_rgba(colour: Rgb) -> (r: Rgba)
    ensures
        r == opaque(colour),
{
    let image::Rgba([red, green, blue, alpha]) = image::Rgb([colour.red, colour.green, colour.blue]).to_rgba();
    Rgba { red, green, blue, alpha }
}

impl<C: Copy> Clone for Colours<C> {
    fn clone(&self) -> (r: Self)
        ensures
            r == *self,
    {
        *self
    }
}

impl<C> Colours<C> {
    /// The colours with `function` applied to each.
    pub fn map<D, F: Fn(C) -> D>(self, function: F) -> (r: Colours<D>)
        requires
            call_requires(function, (self.text,)),
            call_requires(function, (self.background,)),
            call_requires(function, (self.border,)),
            call_requires(function, (self.bold_grid,)),
            call_requires(function, (self.light_grid,)),
            call_requires(function, (self.graph,)),
        ensures
            call_ensures(function, (self.text,), r.text),
            call_ensures(function, (self.background,), r.background),
            call_ensures(function, (self.border,), r.border),
            call_ensures(function, (self.bold_grid,), r.bold_grid),
            call_ensures(function, (self.light_grid,), r.light_grid),
            call_ensures(function, (self.graph,), r.graph),
    {
        Colours {
            text: function(self.text),
            background: function(self.background),
            border: function(self.border),
            bold_grid: function(self.bold_grid),
            light_grid: function(self.light_grid),
            graph: function(self.graph),
        }
    }
}

impl Colours<Rgb> {
    /// The colours, each made opaque.
    pub fn rgba(self) -> (r: Colours<Rgba>)
        ensures
            r == opaque_colours(self),
    {
        self.map(|colour: Rgb| -> (o: Rgba)
            ensures
                o == opaque(colour),
            { pixel_to_rgba(colour) })
    }
}

/// The palette that the viewer uses under `scheme`: the dark one for a dark
/// scheme, the light one otherwise.
pub fn colours_for(scheme: ColourScheme) -> (r: Colours<Rgb>)
    ensures
        r == palette_for(scheme),
{
    match scheme {
        ColourScheme::Dark => Colours {
            text: Rgb { red: 0xe0, green: 0xde, blue: 0xf4 },
            background: Rgb { red: 0x19, green: 0x17, blue: 0x24 },
            border: Rgb { red: 0x52, green: 0x4f, blue: 0x67 },
            bold_grid: Rgb { red: 0x40, green: 0x3d, blue: 0x52 },
            light_grid: Rgb { red: 0x21, green: 0x20, blue: 0x2e },
            graph: Rgb { red: 0xeb, green: 0x6f, blue: 0x92 },
        },
        ColourScheme::Light | ColourScheme::Unspecified => Colours {
            text: Rgb { red: 0x57, green: 0x52, blue: 0x79 },
            background: Rgb { red: 0xfa, green: 0xf4, blue: 0xed },
            border: Rgb { red: 0xce, green: 0xca, blue: 0xcd },
            bold_grid: Rgb { red: 0xdf, green: 0xda, blue: 0xd9 },
            light_grid: Rgb { red: 0xf4, green: 0xed, blue: 0xe8 },
            graph: Rgb { red: 0xb4, green: 0x63, blue: 0x7a },
        },
    }
}

#[verifier::external_type_specification]
#[verifier::external_body]
pub struct ExDarkLightError(dark_light::Error);

/// Calls `dark_light::detect`, which asks the system (on Linux, the XDG
/// desktop portal, with a timeout) for its preferred colour scheme. Nothing
/// is stated of the outcome: it depends on the system.
#[verifier::external_body]
fn detect_scheme() -> (r: Result<ColourScheme, dark_light::Error>) {
    match dark_light::detect() {
        Ok(dark_light::Mode::Dark) => Ok(ColourScheme::Dark),
        Ok(dark_light::Mode::Light) => Ok(ColourScheme::Light),
        Ok(dark_light::Mode::Unspecified) => Ok(ColourScheme::Unspecified),
        Err(error) => Err(error),
    }
}

/// Why the colours could not be chosen.
#[derive(Debug)]
pub enum ColourError {
    /// The system's colour scheme could not be detected.
    Detection(dark_light::Error),
}

impl ColourError {
    /// What was being done when the error came.
    pub fn context(&self) -> (r: &'static str)
        ensures
            r@ == "detecting the system colour scheme"@,
    {
        "detecting the system colour scheme"
    }
}

/// The answer to an outcome of detecting the colour scheme: the palette of
/// the detected scheme, or the detection error wrapped as a `ColourError`.
pub fn colours_from_detection(detected: Result<ColourScheme, dark_light::Error>) -> (r: Result<Colours<Rgb>, ColourError>)
    ensures
        detected matches Ok(scheme) ==> r matches Ok(c) && c == palette_for(scheme),
        detected matches Err(e) ==> r matches Err(ColourError::Detection(f)) && f == e,
{
    match detected {
        Ok(scheme) => Ok(colours_for(scheme)),
        Err(error) => Err(ColourError::Detection(error)),
    }
}

/// The palette for the system's colour scheme, or the error of its
/// detection.
pub fn detect_colours() -> (r: Result<Colours<Rgb>, ColourError>)
    ensures
        r matches Ok(c) ==> c == dark_palette() || c == light_palette(),
{
    colours_from_detection(detect_scheme())
}

/// The colours with the spec function `f` applied to each.
pub open spec fn map_with<C, D>(c: Colours<C>, f: spec_fn(C) -> D) -> Colours<D> {
    Colours {
        text: f(c.text),
        background: f(c.background),
        border: f(c.border),
        bold_grid: f(c.bold_grid),
        light_grid: f(c.light_grid),
        graph: f(c.graph),
    }
}

/// Where `function` computes `f`, `map` with it gives `map_with(c, f)`:
/// each colour is replaced by `f` of the same colour, none swapped, dropped
/// or repeated.
pub proof fn law_map_follows_function<C, D, F: Fn(C) -> D>(
    c: Colours<C>,
    function: F,
    f: spec_fn(C) -> D,
    r: Colours<D>,
)
    requires
        forall|x: C, y: D| #[trigger] call_ensures(function, (x,), y) ==> y == f(x),
        call_ensures(function, (c.text,), r.text),
        call_ensures(function, (c.background,), r.background),
        call_ensures(function, (c.border,), r.border),
        call_ensures(function, (c.bold_grid,), r.bold_grid),
        call_ensures(function, (c.light_grid,), r.light_grid),
        call_ensures(function, (c.graph,), r.graph),
    ensures
        r == map_with(c, f),
{
}

/// Mapping with the identity gives the colours back.
pub proof fn law_map_identity<C>(c: Colours<C>)
    ensures
        map_with(c, |x: C| x) == c,
{
}

/// Mapping with `f` and then with `g` is mapping with `g` after `f`.
pub proof fn law_map_composition<C, D, E>(c: Colours<C>, f: spec_fn(C) -> D, g: spec_fn(D) -> E)
    ensures
        map_with(map_with(c, f), g) == map_with(c, |x: C| g(f(x))),
{
}

} // verus!
