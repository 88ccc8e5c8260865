//! Module runtimes: the instance of a loaded module, and the native Rust
//! runtime.

use vstd::prelude::*;

use super::metadata::{ModuleInfo, Runtime};

verus! {

/// The runtime-side handle of a loaded module.
#[derive(Debug, Clone, Copy, PartialEq, Eq, Structural)]
pub enum ModuleHandle {
    /// A Rust module.
    Rust,
    /// A JavaScript module.
    JavaScript,
    /// A Python module.
    Python,
    /// A WebAssembly module.
    WebAssembly,
}

/// The handle kind of a runtime.
pub open spec fn handle_of(r: Runtime) -> ModuleHandle {
    match r {
        Runtime::Rust => ModuleHandle::Rust,
        Runtime::JavaScript => ModuleHandle::JavaScript,
        Runtime::Python => ModuleHandle::Python,
        Runtime::WebAssembly => ModuleHandle::WebAssembly,
    }
}

/// A loaded module.
#[derive(Debug)]
pub struct ModuleInstance {
    /// The module id.
    pub module_id: String,
    /// Its runtime.
    pub runtime: Runtime,
    /// Its handle.
    pub handle: ModuleHandle,
}

impl ModuleInstance {
    /// An instance of `module_id` in `runtime`, with the handle of that
    /// runtime.
    pub fn new(module_id: String, runtime: Runtime) -> (r: Self)
        ensures
            r.module_id == module_id,
            r.runtime == runtime,
            r.handle == handle_of(runtime),
    {
        let handle = match runtime {
            Runtime::Rust => ModuleHandle::Rust,
            Runtime::JavaScript => ModuleHandle::JavaScript,
            Runtime::Python => ModuleHandle::Python,
            Runtime::WebAssembly => ModuleHandle::WebAssembly,
        };
        ModuleInstance { module_id, runtime, handle }
    }
}

/// The native Rust runtime.
#[derive(Debug, Clone, Copy)]
pub struct RustRuntimeManager;

impl RustRuntimeManager {
    /// The Rust runtime.
    pub fn new() -> (r: Self) {
        RustRuntimeManager
    }

    /// Loads `module_info`: an instance of it in the Rust runtime.
    pub fn load_module(&self, module_info: &ModuleInfo) -> (r: ModuleInstance)
        ensures
            r.module_id@ == module_info.metadata.id@,
            r.runtime == Runtime::Rust,
            r.handle == ModuleHandle::Rust,
    {
        ModuleInstance::new(module_info.id().to_owned(), Runtime::Rust)
    }

    /// The runtime this manager runs.
    pub fn runtime_type(&self) -> (r: Runtime)
        ensures
            r == Runtime::Rust,
    {
        Runtime::Rust
    }
}

} // verus!
