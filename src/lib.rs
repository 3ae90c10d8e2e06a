pub mod source;
pub mod token;
pub mod html_ident;
pub mod html_lit_str;
pub mod attribute;
pub mod opening_tag;
pub mod tag;
pub mod text;

pub use source::{ErrorKind, ParseError, Span};
pub use token::{LeftAngle, LeftAngleSlash, RightAngle, SlashRightAngle};
pub use html_ident::HtmlIdent;
pub use html_lit_str::{HtmlRawStrLit, HtmlStrLit};
pub use attribute::{Attribute, AttributeValue};
pub use opening_tag::{OpeningTag, OpeningTagTerminator};
pub use tag::{ClosingTag, Tag, TagContent};
