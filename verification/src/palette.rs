use vstd::prelude::*;

use crate::ConfigError;

verus! {

/// One color of an indexed table.
#[derive(Clone, Copy, PartialEq, Eq, Structural, Debug)]
pub struct Rgb {
    pub r: u8,
    pub g: u8,
    pub b: u8,
}

/// An ordered table of at most 256 colors; every indexed frame byte must
/// stay below its length.
#[derive(Debug)]
pub struct Palette {
    pub colors: Vec<Rgb>,
}

impl Palette {
    pub open spec fn wf(self) -> bool {
        1 <= self.colors@.len() <= 256
    }

    pub fn len(&self) -> (r: usize)
        ensures
            r == self.colors@.len(),
    {
        self.colors.len()
    }

    /// The table flattened to `[r, g, b, r, g, b, ...]` bytes, as an
    /// animated-image container expects its global color table.
    pub fn to_bytes(&self) -> (r: Vec<u8>)
        ensures
            r@.len() == 3 * self.colors@.len(),
            forall|i: int|
                0 <= i < self.colors@.len() ==> r@[3 * i] == (#[trigger] self.colors@[i]).r
                    && r@[3 * i + 1] == self.colors@[i].g && r@[3 * i + 2] == self.colors@[i].b,
    {
        let mut out: Vec<u8> = Vec::new();
        let n = self.colors.len();
        let mut i: usize = 0;
        while i < n
            invariant
                i <= n,
                n == self.colors@.len(),
                out@.len() == 3 * i,
                forall|j: int|
                    0 <= j < i ==> out@[3 * j] == (#[trigger] self.colors@[j]).r && out@[3 * j
                        + 1] == self.colors@[j].g && out@[3 * j + 2] == self.colors@[j].b,
            decreases n - i,
        {
            let c = self.colors[i];
            out.push(c.r);
            out.push(c.g);
            out.push(c.b);
            i = i + 1;
        }
        out
    }
}

/// The fixed two-tone table: black at index zero, white at index one.
/// Deterministic: the same table on every call.
pub fn two_tone() -> (r: Palette)
    ensures
        r.wf(),
        r.colors@ == seq![
            Rgb { r: 0, g: 0, b: 0 },
            Rgb { r: 255, g: 255, b: 255 },
        ],
{
    let mut colors: Vec<Rgb> = Vec::new();
    colors.push(Rgb { r: 0, g: 0, b: 0 });
    colors.push(Rgb { r: 255, g: 255, b: 255 });
    proof {
        assert(colors@ =~= seq![Rgb { r: 0, g: 0, b: 0 }, Rgb { r: 255, g: 255, b: 255 }]);
    }
    Palette { colors }
}

/// A fixed table from the given colors, rejected when empty or when it
/// would not fit an indexed byte.
pub fn fixed_palette(colors: &Vec<Rgb>) -> (r: Result<Palette, ConfigError>)
    ensures
        r.is_ok() <==> 1 <= colors@.len() <= 256,
        r.is_ok() ==> r.unwrap().wf() && r.unwrap().colors@ == colors@,
        !r.is_ok() ==> r == Result::<Palette, ConfigError>::Err(ConfigError::BadPaletteSize),
{
    if colors.len() < 1 || colors.len() > 256 {
        return Err(ConfigError::BadPaletteSize);
    }
    Ok(Palette { colors: colors.clone() })
}

/// One channel of the gradient: a triangle wave over the index with period
/// 256, so consecutive indices stay visually close.
pub open spec fn tri_wave(t: int) -> int {
    let m = t % 256;
    if m < 128 {
        2 * m
    } else {
        510 - 2 * m
    }
}

/// The gradient color at index `i`: three phase-shifted triangle waves,
/// one per channel.
pub open spec fn gradient_entry(i: int) -> Rgb {
    Rgb {
        r: tri_wave(3 * i) as u8,
        g: tri_wave(3 * i + 85) as u8,
        b: tri_wave(3 * i + 170) as u8,
    }
}

fn tri_wave_exec(t: usize) -> (r: u8)
    requires
        t <= 1000000,
    ensures
        r == tri_wave(t as int),
{
    proof {
        vstd::arithmetic::div_mod::lemma_mod_division_less_than_divisor(t as int, 256);
    }
    let m = t % 256;
    if m < 128 {
        (2 * m) as u8
    } else {
        (510 - 2 * m) as u8
    }
}

/// A procedurally generated smooth gradient of `size` colors; no
/// randomness, so the same size always yields the same table. Sizes
/// outside `[1, 256]` are rejected.
pub fn gradient(size: usize) -> (r: Result<Palette, ConfigError>)
    ensures
        r.is_ok() <==> 1 <= size <= 256,
        r.is_ok() ==> ({
            let p = r.unwrap();
            &&& p.wf()
            &&& p.colors@.len() == size
            &&& forall|i: int| 0 <= i < size ==> p.colors@[i] == gradient_entry(i)
        }),
        !r.is_ok() ==> r == Result::<Palette, ConfigError>::Err(ConfigError::BadPaletteSize),
{
    if size < 1 || size > 256 {
        return Err(ConfigError::BadPaletteSize);
    }
    let mut colors: Vec<Rgb> = Vec::new();
    let mut i: usize = 0;
    while i < size
        invariant
            i <= size,
            size <= 256,
            colors@.len() == i,
            forall|j: int| 0 <= j < i ==> colors@[j] == gradient_entry(j),
        decreases size - i,
    {
        let c = Rgb {
            r: tri_wave_exec(3 * i),
            g: tri_wave_exec(3 * i + 85),
            b: tri_wave_exec(3 * i + 170),
        };
        colors.push(c);
        i = i + 1;
    }
    Ok(Palette { colors })
}

/// The five preset fill colors offered for Cantor renders.
pub fn preset_colors() -> (r: Vec<Rgb>)
    ensures
        r@ == seq![
            Rgb { r: 239, g: 71, b: 111 },
            Rgb { r: 255, g: 209, b: 102 },
            Rgb { r: 6, g: 214, b: 160 },
            Rgb { r: 17, g: 138, b: 178 },
            Rgb { r: 155, g: 111, b: 242 },
        ],
{
    let mut v: Vec<Rgb> = Vec::new();
    v.push(Rgb { r: 239, g: 71, b: 111 });
    v.push(Rgb { r: 255, g: 209, b: 102 });
    v.push(Rgb { r: 6, g: 214, b: 160 });
    v.push(Rgb { r: 17, g: 138, b: 178 });
    v.push(Rgb { r: 155, g: 111, b: 242 });
    proof {
        assert(v@ =~= seq![
            Rgb { r: 239, g: 71, b: 111 },
            Rgb { r: 255, g: 209, b: 102 },
            Rgb { r: 6, g: 214, b: 160 },
            Rgb { r: 17, g: 138, b: 178 },
            Rgb { r: 155, g: 111, b: 242 },
        ]);
    }
    v
}

} // verus!
