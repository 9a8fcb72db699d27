//! Compiles a closed set of route cases into a URL function, a method function and a dispatch
//! table.
pub mod declare;
pub mod emit;
pub mod escape;
pub mod format;
pub mod ident;
pub mod laws;
pub mod method;
pub mod query;
pub mod resolve;
pub mod reverse;
pub mod table;
pub mod template;
pub mod text;
pub mod url;

pub use declare::{declare, Attribute};
pub use emit::{binding_names, url_arm, UrlArm};
pub use escape::{percent_encode, urlencode};
pub use ident::pascal_to_snake;
pub use method::Method;
pub use query::{encode, QueryField};
pub use resolve::{convention_for, resolve, Binding, ErrorKind, Form, RouteCase, Shape, Slot};
pub use reverse::ReverseTable;
pub use table::{CompileError, DispatchEntry, Entry, RouteTable, Target};
pub use template::{PathTemplate, RenderError, Token};
pub use url::{Args, CaseInstance};
