//! The simplification of a raw Figma document into a compact design.

pub mod arranged;
pub mod canonical;
pub mod color;
pub mod component;
pub mod depth;
pub mod design;
pub mod effects;
pub mod finalize;
pub mod finished;
pub mod gradient;
pub mod grid;
pub mod hex;
pub mod kept;
pub mod keys;
pub mod layout;
pub mod looks;
pub mod markdown;
pub mod marks;
pub mod numbers;
pub mod painted;
pub mod placing;
pub mod references;
pub mod registry;
pub mod rich_text;
pub mod runs;
pub mod sharing;
pub mod stacks;
pub mod style;
pub mod text;
pub mod told;
pub mod walk;
pub mod wired;

pub use crate::simplify::canonical::{canonical, stable_stringify};
pub use crate::simplify::design::{simplify_raw, SimplifiedDesign};
pub use crate::simplify::numbers::{js_num, num, num_raw, pixel_round, uint};
pub use crate::simplify::registry::{find_or_create_var, register_inline_style, register_style, Ctx};
