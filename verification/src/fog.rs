//! Fog settings of the 3-D view, as one closed choice.
//!
//! The scene's fog is described by four independent flags (visible, from
//! the camera, dark, reversed); only six combinations are meaningful and
//! they form this enum.  Converting to and from the flags is lossless on
//! the meaningful combinations.

use vstd::prelude::*;

verus! {

/// Fog is off.
pub const NO_FOG: u32 = 0;

/// Fog fades objects to transparency.
pub const TRANSPARENT_FOG: u32 = 1;

/// Fog fades objects to black.
pub const DARK_FOG: u32 = 2;

/// Fog hides what is near and shows what is far.
pub const REVERSED_FOG: u32 = 3;

/// The fog choice offered to the user.
#[derive(Clone, Debug, PartialEq, Eq, Copy, Structural)]
pub enum FogChoice {
    /// No fog.
    NoFog,
    FromCamera,
    FromPivot,
    DarkFromCamera,
    DarkFromPivot,
    ReversedFromPivot,
}

impl Default for FogChoice {
    fn default() -> (r: Self)
        ensures
            r == FogChoice::NoFog,
    {
        Self::NoFog
    }
}

impl FogChoice {
    /// The choice encoded by the four flags.
    pub fn from_param(visible: bool, from_camera: bool, dark: bool, reversed: bool) -> (r: Self)
        ensures
            r == Self::NoFog.visible_spec(visible).dark_spec(dark).from_camera_spec(
                from_camera,
            ).reversed_spec(reversed),
    {
        Self::NoFog.visible(visible).dark(dark).from_camera(from_camera).reversed(reversed)
    }

    /// The four flags (visible, from camera, dark, reversed) encoding
    /// the choice.
    pub fn to_param(&self) -> (r: (bool, bool, bool, bool))
        ensures
            r.0 == (*self != FogChoice::NoFog),
            r.1 == (*self == FogChoice::FromCamera || *self == FogChoice::DarkFromCamera),
            r.2 == (*self == FogChoice::DarkFromCamera || *self == FogChoice::DarkFromPivot),
            r.3 == (*self == FogChoice::ReversedFromPivot),
    {
        (self.is_visible(), self.is_from_camera(), self.is_dark(), self.is_reversed())
    }

    /// The choice with visibility set or cleared.
    pub open spec fn visible_spec(self, visible: bool) -> Self {
        if visible {
            if self == Self::NoFog {
                Self::FromPivot
            } else {
                self
            }
        } else {
            Self::NoFog
        }
    }

    /// Set or clear the visibility of the fog.
    pub fn visible(self, visible: bool) -> (r: Self)
        ensures
            r == self.visible_spec(visible),
    {
        if visible {
            if let Self::NoFog = self {
                Self::FromPivot
            } else {
                self
            }
        } else {
            Self::NoFog
        }
    }

    /// The choice with the fog origin moved to or from the camera.
    pub open spec fn from_camera_spec(self, from_camera: bool) -> Self {
        if from_camera {
            match self {
                Self::FromPivot => Self::FromCamera,
                Self::DarkFromPivot => Self::DarkFromCamera,
                _ => self,
            }
        } else {
            match self {
                Self::FromCamera => Self::FromPivot,
                Self::DarkFromCamera => Self::DarkFromPivot,
                _ => self,
            }
        }
    }

    /// Move the fog origin to or from the camera.
    pub fn from_camera(self, from_camera: bool) -> (r: Self)
        ensures
            r == self.from_camera_spec(from_camera),
    {
        if from_camera {
            match self {
                Self::FromPivot => Self::FromCamera,
                Self::DarkFromPivot => Self::DarkFromCamera,
                _ => self,
            }
        } else {
            match self {
                Self::FromCamera => Self::FromPivot,
                Self::DarkFromCamera => Self::DarkFromPivot,
                _ => self,
            }
        }
    }

    /// The choice with the reversed flag set or cleared.
    pub open spec fn reversed_spec(self, reversed: bool) -> Self {
        match (self, reversed) {
            (Self::FromPivot, true) => Self::ReversedFromPivot,
            (Self::ReversedFromPivot, false) => Self::FromPivot,
            _ => self,
        }
    }

    /// Set or clear the reversed flag.
    pub fn reversed(self, reversed: bool) -> (r: Self)
        ensures
            r == self.reversed_spec(reversed),
    {
        match (self, reversed) {
            (Self::FromPivot, true) => Self::ReversedFromPivot,
            (Self::ReversedFromPivot, false) => Self::FromPivot,
            _ => self,
        }
    }

    /// The choice with the dark flag set or cleared.
    pub open spec fn dark_spec(self, dark: bool) -> Self {
        if dark {
            match self {
                Self::FromCamera => Self::DarkFromCamera,
                Self::FromPivot => Self::DarkFromPivot,
                _ => self,
            }
        } else {
            match self {
                Self::DarkFromCamera => Self::FromCamera,
                Self::DarkFromPivot => Self::FromPivot,
                _ => self,
            }
        }
    }

    /// Set or clear the dark flag.
    pub fn dark(self, dark: bool) -> (r: Self)
        ensures
            r == self.dark_spec(dark),
    {
        if dark {
            match self {
                Self::FromCamera => Self::DarkFromCamera,
                Self::FromPivot => Self::DarkFromPivot,
                _ => self,
            }
        } else {
            match self {
                Self::DarkFromCamera => Self::FromCamera,
                Self::DarkFromPivot => Self::FromPivot,
                _ => self,
            }
        }
    }

    /// Whether any fog is shown.
    pub fn is_visible(&self) -> (r: bool)
        ensures
            r == (*self != FogChoice::NoFog),
    {
        !matches!(self, Self::NoFog)
    }

    /// Whether the fog originates at the camera.
    pub fn is_from_camera(&self) -> (r: bool)
        ensures
            r == (*self == FogChoice::FromCamera || *self == FogChoice::DarkFromCamera),
    {
        matches!(self, Self::FromCamera | Self::DarkFromCamera)
    }

    /// Whether the fog fades to black.
    pub fn is_dark(&self) -> (r: bool)
        ensures
            r == (*self == FogChoice::DarkFromCamera || *self == FogChoice::DarkFromPivot),
    {
        matches!(self, Self::DarkFromCamera | Self::DarkFromPivot)
    }

    /// Whether the fog is reversed.
    pub fn is_reversed(&self) -> (r: bool)
        ensures
            r == (*self == FogChoice::ReversedFromPivot),
    {
        matches!(self, Self::ReversedFromPivot)
    }

    /// The renderer's fog kind for this choice.
    pub fn fog_kind(&self) -> (r: u32)
        ensures
            *self == FogChoice::NoFog ==> r == NO_FOG,
            *self == FogChoice::FromCamera || *self == FogChoice::FromPivot ==> r
                == TRANSPARENT_FOG,
            *self == FogChoice::DarkFromPivot || *self == FogChoice::DarkFromCamera ==> r
                == DARK_FOG,
            *self == FogChoice::ReversedFromPivot ==> r == REVERSED_FOG,
    {
        match self {
            Self::NoFog => NO_FOG,
            Self::FromCamera | Self::FromPivot => TRANSPARENT_FOG,
            Self::DarkFromPivot | Self::DarkFromCamera => DARK_FOG,
            Self::ReversedFromPivot => REVERSED_FOG,
        }
    }

    /// The user-facing label of the choice.
    pub fn label(&self) -> (r: &'static str)
        ensures
            *self == FogChoice::NoFog ==> r@ == "None"@,
            *self == FogChoice::FromCamera ==> r@ == "From Camera"@,
            *self == FogChoice::FromPivot ==> r@ == "From Pivot"@,
            *self == FogChoice::DarkFromCamera ==> r@ == "Dark from Camera"@,
            *self == FogChoice::DarkFromPivot ==> r@ == "Dark from Pivot"@,
            *self == FogChoice::ReversedFromPivot ==> r@ == "Reversed from Pivot"@,
    {
        match self {
            Self::NoFog => "None",
            Self::FromCamera => "From Camera",
            Self::FromPivot => "From Pivot",
            Self::DarkFromCamera => "Dark from Camera",
            Self::DarkFromPivot => "Dark from Pivot",
            Self::ReversedFromPivot => "Reversed from Pivot",
        }
    }
}

/// Every fog choice offered by the selector, in display order.
pub fn all_fog_choices() -> (r: Vec<FogChoice>)
    ensures
        r@ =~= seq![
            FogChoice::NoFog,
            FogChoice::FromCamera,
            FogChoice::FromPivot,
            FogChoice::DarkFromCamera,
            FogChoice::DarkFromPivot,
            FogChoice::ReversedFromPivot,
        ],
{
    let mut r: Vec<FogChoice> = Vec::new();
    r.push(FogChoice::NoFog);
    r.push(FogChoice::FromCamera);
    r.push(FogChoice::FromPivot);
    r.push(FogChoice::DarkFromCamera);
    r.push(FogChoice::DarkFromPivot);
    r.push(FogChoice::ReversedFromPivot);
    r
}

/// A fog choice converted to flags and back is the choice itself: the
/// six choices encode exactly the meaningful flag combinations.
pub proof fn lemma_fog_round_trip(c: FogChoice)
    ensures
        FogChoice::NoFog.visible_spec(c != FogChoice::NoFog).dark_spec(
            c == FogChoice::DarkFromCamera || c == FogChoice::DarkFromPivot,
        ).from_camera_spec(c == FogChoice::FromCamera || c == FogChoice::DarkFromCamera).reversed_spec(
            c == FogChoice::ReversedFromPivot,
        ) == c,
{
}

} // verus!
