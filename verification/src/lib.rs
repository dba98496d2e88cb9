//! Long multiplication of two decimal numbers, worked out column by column
//! and drawn as a box table.
//!
//! A number is a `usize`. The frame of a table has one column for every
//! digit of the multiplicand and one for every digit of the multiplier.
//! Places of digits and columns of the frame are counted from the least
//! significant end, which is place 0 and column 0.
//!
//! - [`decimal`], [`columns`]: digits of numbers and values of columns, the
//!   model that the contracts are written over.
//! - [`length`], [`breakdown`]: the widths, the digit-by-digit products, the
//!   column sums and the passes of carrying.
//! - [`product`]: why the column sums and what carrying ends with are the
//!   product.
//! - [`layout`], [`frame`]: rules, titles and rows of cells.
//! - [`generate`], [`display`]: the sections of the full and of the plain
//!   table.
//! - [`multiplication`]: the full table as one text.
//! - [`arguments`]: what a run is asked to do.

pub mod arguments;
pub mod breakdown;
pub mod columns;
pub mod decimal;
pub mod display;
pub mod frame;
pub mod generate;
pub mod layout;
pub mod length;
pub mod multiplication;
pub mod product;
