//! A text console over a fixed grid of character cells in the layout of the
//! legacy text-mode video adapter: appends bytes to the bottom row, wraps a
//! full row, scrolls on newline and replaces bytes it cannot render.

pub mod vga_buffer;
pub mod laws;
