use vstd::prelude::*;

verus! {

/// A stored planet: the generator and colorator shader code, the channels chosen
/// for display with their settings, and the textures painted on, each with its
/// name, size and pixels.
pub enum Savegame {
    Version0 {
        generator: String,
        colorator: String,
        select_channels: Vec<(String, i32)>,
        active_textures: Vec<(String, (i32, i32), Vec<u8>)>,
    },
}

} // verus!
