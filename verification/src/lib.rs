pub mod text;
pub mod strmap;
pub mod types;
pub mod extractor;
pub mod diagnostics;
pub mod config;
pub mod format;
pub mod check;
pub mod python;
pub mod alembic;
pub mod state;
pub mod f01;
pub mod f02;
pub mod sort;
pub mod alembic_diag;
pub mod schema;
pub mod rename;
pub mod positions;
pub mod colors;
pub mod occur;
pub mod report;
pub mod code_action;
pub mod fixes;
pub mod hover;
pub mod stats;
pub mod syntax;
pub mod extract;
pub mod migration;
pub mod completion;
pub mod cli;
pub mod symbols;
pub mod definition;
pub mod references;
pub mod inlay_hints;
pub mod signature_help;
pub mod parse;
pub mod pipeline;
pub mod workspace;
pub mod events;
