//! FerroGL: High-Performance, Safe Embedded UI in Rust
//!
//! ## Features
//! - 100% safe Rust, no C dependencies
//! - Zero-cost abstractions, no dynamic allocation
//! - Modern, Flexbox-inspired layout engine
//! - Hardware-agnostic driver interface (RISC-V, ARM, MCP)
//! - Designed for embedded and bare-metal targets
//!
//! ## Example
//! ```rust
//! use ferrogl::layout::{Layout, Direction, Align, Rect, LayoutChild};
//! let mut layout = Layout::new(Direction::Row, Align::Start, Rect { x: 0, y: 0, width: 320, height: 240 });
//! layout.add_child(LayoutChild { flex: 1, min_size: 10, max_size: 100, rect: Rect { x: 0, y: 0, width: 10, height: 240 } }).unwrap();
//! layout.compute();
//! assert_eq!(layout.children[0].rect, Rect { x: 0, y: 0, width: 100, height: 240 });
//! ```
//!
//! ## Modules
//! - `layout`: the geometry types, `Layout`, and the model of what `Layout::compute` gives.
//! - `flex`: the model of how main-axis space is shared among flexible children.
//! - `bounds`, `accounting`: what holds of that model, sizes and sums.
//! - `laws`: what holds of every layout.
//! - `driver`, `widget`, `state`: the display, widget and observer interfaces around the layout.

pub mod accounting;
pub mod bounds;
pub mod driver;
pub mod flex;
pub mod laws;
pub mod layout;
mod rounds;
pub mod state;
pub mod widget;

// Re-export key types for convenience
pub use driver::{CpuArch, DisplayDriver, DisplayInfo, DmaCapable};
pub use layout::{Align, Direction, Layout, LayoutChild, LayoutError, Rect};
pub use state::State;
