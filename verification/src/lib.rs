//! A module-reference resolution and rewriting engine: given the identity of
//! a source file and the string specifiers its tree mentions, it decides
//! which references are local, resolves each to an absolute on-disk file
//! with a Node-style search (extension and `index` probing, `node_modules`
//! walk, `package.json` entries), rewrites the specifier to a runtime-safe
//! relative path, and collects the resolved paths as the file's dependency
//! set.  Builtin and configured external specifiers pass through untouched;
//! style imports are skipped and stripped from the module's top level.

pub mod fsio;
pub mod module_resolver;
pub mod pathops;
pub mod seg;
pub mod text;
pub mod transform;
pub mod utils;
