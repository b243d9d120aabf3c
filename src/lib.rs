use vstd::prelude::*;

pub mod text;
pub mod vars;
pub mod subst;
pub mod registry;
pub mod directives;
pub mod interp;
pub mod names;

pub use registry::FunctionDefinition;
pub use registry::{is_function_call, DeclError, Registry};
pub use subst::replace_variables;
pub use directives::{handle_var, FileWrite, Prompt};
pub use interp::{use_tmpl, Action, Interpreter};
pub use vars::VarStore;
pub use names::{check_template_name, select_template, InstallTarget, NameError, SelectionError};
