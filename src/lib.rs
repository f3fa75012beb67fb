//! A terminal bar chart of byte frequencies: a grid of styled cells, a layout
//! engine that paints a distribution onto it with eighth-block precision, and a
//! serializer that turns the grid into a compact stream of terminal commands.

pub mod cell;
pub mod buffer;
pub mod render;
pub mod labels;
pub mod layout;
pub mod distribution;
