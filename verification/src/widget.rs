use crate::color::Rgba;
use cosmic_text::AttrsOwned;
use vstd::prelude::*;

verus! {

/// The attributes in which a widget's text is set where it brings none of
/// its own.
pub struct CosmicAttrs(pub AttrsOwned);

/// `cosmic_text::AttrsOwned::new` of `cosmic_text::Attrs::new`: the
/// attributes that the shaping engine starts from. Nothing is claimed of
/// them.
#[verifier::external_body]
fn plain_attrs() -> (attrs: AttrsOwned) {
    AttrsOwned::new(cosmic_text::Attrs::new())
}

impl Default for CosmicAttrs {
    fn default() -> (attrs: Self) {
        CosmicAttrs(plain_attrs())
    }
}

/// The colour that fills a widget which has no background image.
#[derive(Clone, Copy, Debug, PartialEq, Eq, Structural)]
pub struct FillColor(pub Rgba);

impl Default for FillColor {
    fn default() -> (fill: Self)
        ensures
            fill == FillColor(Rgba { r: 255, g: 255, b: 255, a: 255 }),
    {
        FillColor(Rgba { r: 255, g: 255, b: 255, a: 255 })
    }
}

/// The most lines that a widget's text may have; 0 sets no limit.
#[derive(Clone, Copy, Debug, PartialEq, Eq, Structural)]
pub struct CosmicMaxLines(pub usize);

impl Default for CosmicMaxLines {
    fn default() -> (limit: Self)
        ensures
            limit == CosmicMaxLines(0),
    {
        CosmicMaxLines(0)
    }
}

/// The most characters that a widget's text may have; 0 sets no limit.
#[derive(Clone, Copy, Debug, PartialEq, Eq, Structural)]
pub struct CosmicMaxChars(pub usize);

impl Default for CosmicMaxChars {
    fn default() -> (limit: Self)
        ensures
            limit == CosmicMaxChars(0),
    {
        CosmicMaxChars(0)
    }
}

/// The passes that a widget goes through in each frame.
#[derive(Clone, Copy, Debug, PartialEq, Eq, Hash, Structural)]
pub enum CosmicRenderSet {
    Setup,
    Shaping,
    Sizing,
    Cursor,
    Padding,
    Draw,
}

/// The place of a pass in the frame, counted from 0.
pub open spec fn pass_order(set: CosmicRenderSet) -> nat {
    match set {
        CosmicRenderSet::Setup => 0,
        CosmicRenderSet::Shaping => 1,
        CosmicRenderSet::Sizing => 2,
        CosmicRenderSet::Cursor => 3,
        CosmicRenderSet::Padding => 4,
        CosmicRenderSet::Draw => 5,
    }
}

impl CosmicRenderSet {
    /// The place of the pass in the frame, counted from 0. Within a frame
    /// a widget's passes run in this order, each after the one before is
    /// done; drawing comes last, so that it sees a text that no pass of the
    /// frame can still change.
    pub fn order(&self) -> (place: u8)
        ensures
            place == pass_order(*self),
            place <= pass_order(CosmicRenderSet::Draw),
    {
        match self {
            CosmicRenderSet::Setup => 0,
            CosmicRenderSet::Shaping => 1,
            CosmicRenderSet::Sizing => 2,
            CosmicRenderSet::Cursor => 3,
            CosmicRenderSet::Padding => 4,
            CosmicRenderSet::Draw => 5,
        }
    }

    /// The pass that follows this one in the frame, if any.
    pub fn next(&self) -> (following: Option<CosmicRenderSet>)
        ensures
            following is None <==> *self == CosmicRenderSet::Draw,
            following matches Some(set) ==> pass_order(set) == pass_order(*self) + 1,
    {
        match self {
            CosmicRenderSet::Setup => Some(CosmicRenderSet::Shaping),
            CosmicRenderSet::Shaping => Some(CosmicRenderSet::Sizing),
            CosmicRenderSet::Sizing => Some(CosmicRenderSet::Cursor),
            CosmicRenderSet::Cursor => Some(CosmicRenderSet::Padding),
            CosmicRenderSet::Padding => Some(CosmicRenderSet::Draw),
            CosmicRenderSet::Draw => None,
        }
    }
}

} // verus!
