//! Fine-grained access control for tabular data: principals, resources and
//! actions; a permission store with role membership and row filters; an
//! authorization engine that fails closed; and the statement and row-filter
//! languages that drive them.
use vstd::prelude::*;

pub mod arn;
pub mod backend;
pub mod engine;
pub mod error;
pub mod export;
pub mod expression;
pub mod laws;
pub mod lexer;
pub mod parser;
pub mod permissions;
pub mod roundtrip;
pub mod state;
pub mod strmap;
pub mod text;
pub mod types;

pub use arn::get_resource_arn;
pub use backend::BackendConfig;
pub use backend::BackendFactory;
pub use backend::EmulatorBackend;
pub use backend::LakeFormationBackend;
pub use engine::check_access;
pub use engine::EmulatorEngine;
pub use error::LakeError;
pub use export::StateExporter;
pub use expression::create_sample_row;
pub use expression::create_session_context;
pub use expression::ExpressionEvaluator;
pub use parser::parse_action;
pub use parser::parse_ddl;
pub use parser::parse_principal;
pub use parser::parse_resource;
pub use parser::DdlStatement;
pub use permissions::PermissionEngine;
pub use state::EmulatorState;
pub use strmap::StrMap;
pub use types::Action;
pub use types::DdlResult;
pub use types::LfTag;
pub use types::Permission;
pub use types::Principal;
pub use types::Resource;
pub use types::Role;
pub use types::RowFilter;

verus! {

} // verus!
