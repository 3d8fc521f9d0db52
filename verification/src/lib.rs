//! Tables, line types and multileaders of DXF drawings, with their code pairs.

pub mod code_pair;
pub mod color;
pub mod decimal;
pub mod drawing;
pub mod enums;
pub mod error;
pub mod handle;
pub mod items;
pub mod linetype;
pub mod mleader;
pub mod names;
pub mod normalization;
pub mod point;
pub mod reader;
pub mod round_trip;

pub mod tables;
pub mod text;
pub mod writer;

pub use code_pair::{CodePair, CodePairValue};
pub use color::Color;
pub use decimal::Real;
pub use drawing::{Drawing, Header};
pub use enums::AcadVersion;
pub use error::{DxfError, DxfResult};
pub use handle::Handle;
pub use linetype::{LineType, LineTypeElement};
pub use mleader::MLeader;
pub use point::{Point, Vector};
pub use tables::{AppId, BlockRecord, ExtensionGroup, ExtensionGroupItem, Layer, Style, Ucs, View, ViewPort};
