//! The user-controllable parameters of the rain, with their defaults.
use vstd::prelude::*;

verus! {

/// One trail for every this many cells of the grid, unless configured.
pub const DEFAULT_TRAIL_DENSITY: u32 = 30;

/// The glyphs that the rain draws from, unless configured.
pub open spec fn default_rain_charset() -> Seq<char> {
    seq![
        'x', 'A', 'z', 'O', '\u{00D8}', '\u{01C2}', '\u{03A9}', '\u{01E3}', '\u{03FC}', '\u{305B}',
        '\u{3091}',
    ]
}

/// Parameters that change how the rain looks.
#[derive(Debug)]
pub struct Config {
    /// One trail is spawned per `trail_density` cells of the grid.
    pub trail_density: u32,
    /// The glyphs that trails are drawn with.
    pub rain_charset: Vec<char>,
}

impl Config {
    /// A usable configuration: a positive density and at least one glyph.
    pub open spec fn wf(&self) -> bool {
        &&& self.trail_density > 0
        &&& self.rain_charset@.len() > 0
    }

    /// The glyphs of `default_rain_charset`.
    pub fn default_charset() -> (r: Vec<char>)
        ensures
            r@ == default_rain_charset(),
    {
        let r = vec![
            'x', 'A', 'z', 'O', '\u{00D8}', '\u{01C2}', '\u{03A9}', '\u{01E3}', '\u{03FC}',
            '\u{305B}', '\u{3091}',
        ];
        assert(r@ =~= default_rain_charset());
        r
    }

    /// The configuration made of the values that were supplied. A density
    /// that is missing or zero falls back to `DEFAULT_TRAIL_DENSITY`; a
    /// charset that is missing or empty falls back to the default glyphs.
    pub fn create(trail_density: Option<u32>, rain_charset: Option<Vec<char>>) -> (c: Config)
        ensures
            c.wf(),
            c.trail_density == (match trail_density {
                Some(d) => if d > 0 {
                    d
                } else {
                    DEFAULT_TRAIL_DENSITY
                },
                None => DEFAULT_TRAIL_DENSITY,
            }),
            c.rain_charset@ == (match rain_charset {
                Some(cs) => if cs@.len() > 0 {
                    cs@
                } else {
                    default_rain_charset()
                },
                None => default_rain_charset(),
            }),
    {
        let trail_density: u32 = match trail_density {
            Some(d) => if d > 0 {
                d
            } else {
                DEFAULT_TRAIL_DENSITY
            },
            None => DEFAULT_TRAIL_DENSITY,
        };
        let rain_charset: Vec<char> = match rain_charset {
            Some(cs) => if cs.len() > 0 {
                cs
            } else {
                Config::default_charset()
            },
            None => Config::default_charset(),
        };
        Config { trail_density, rain_charset }
    }
}

} // verus!
