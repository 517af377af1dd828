//! Callbacks around the work of components.

use vstd::prelude::*;

verus! {

/// The component that a callback is told of.
#[derive(Debug, Clone, Copy, PartialEq, Eq, Hash, Structural)]
pub enum ComponentType {
    Module,
    Lm,
    AdapterFormat,
    AdapterParse,
    Tool,
    Evaluate,
}

/// The callbacks that are told of all components. `C` is a handle to a callback.
#[derive(Debug)]
pub struct CallbackRegistry<C> {
    pub callbacks: Vec<C>,
}

impl<C> CallbackRegistry<C> {
    /// No callbacks.
    pub fn new() -> (r: Self)
        ensures
            r.callbacks@ == Seq::<C>::empty(),
    {
        CallbackRegistry { callbacks: Vec::new() }
    }
}

/// Sets the callbacks. Those that were there are gone.
pub fn set_global_callbacks<C>(registry: &mut CallbackRegistry<C>, callbacks: Vec<C>)
    ensures
        final(registry).callbacks == callbacks,
{
    registry.callbacks = callbacks;
}

/// The callbacks.
pub fn get_global_callbacks<C>(registry: &CallbackRegistry<C>) -> (r: &Vec<C>)
    ensures
        *r == registry.callbacks,
{
    &registry.callbacks
}

/// Adds a callback.
pub fn add_global_callback<C>(registry: &mut CallbackRegistry<C>, callback: C)
    ensures
        final(registry).callbacks@ == old(registry).callbacks@.push(callback),
{
    registry.callbacks.push(callback);
}

/// Takes all callbacks out.
pub fn clear_global_callbacks<C>(registry: &mut CallbackRegistry<C>)
    ensures
        final(registry).callbacks@ == Seq::<C>::empty(),
{
    registry.callbacks = Vec::new();
}

/// The hook that is called before or after the work of a component.
#[derive(Debug, Clone, Copy, PartialEq, Eq, Structural)]
pub enum Hook {
    ModuleStart,
    ModuleEnd,
    LmStart,
    LmEnd,
    AdapterFormatStart,
    AdapterFormatEnd,
    AdapterParseStart,
    AdapterParseEnd,
    ToolStart,
    ToolEnd,
    EvaluateStart,
    EvaluateEnd,
}

/// The hook that is called before the work of a component.
pub fn start_hook(component_type: ComponentType) -> (r: Hook)
    ensures
        r == (match component_type {
            ComponentType::Module => Hook::ModuleStart,
            ComponentType::Lm => Hook::LmStart,
            ComponentType::AdapterFormat => Hook::AdapterFormatStart,
            ComponentType::AdapterParse => Hook::AdapterParseStart,
            ComponentType::Tool => Hook::ToolStart,
            ComponentType::Evaluate => Hook::EvaluateStart,
        }),
{
    match component_type {
        ComponentType::Module => Hook::ModuleStart,
        ComponentType::Lm => Hook::LmStart,
        ComponentType::AdapterFormat => Hook::AdapterFormatStart,
        ComponentType::AdapterParse => Hook::AdapterParseStart,
        ComponentType::Tool => Hook::ToolStart,
        ComponentType::Evaluate => Hook::EvaluateStart,
    }
}

/// The hook that is called after the work of a component.
pub fn end_hook(component_type: ComponentType) -> (r: Hook)
    ensures
        r == (match component_type {
            ComponentType::Module => Hook::ModuleEnd,
            ComponentType::Lm => Hook::LmEnd,
            ComponentType::AdapterFormat => Hook::AdapterFormatEnd,
            ComponentType::AdapterParse => Hook::AdapterParseEnd,
            ComponentType::Tool => Hook::ToolEnd,
            ComponentType::Evaluate => Hook::EvaluateEnd,
        }),
{
    match component_type {
        ComponentType::Module => Hook::ModuleEnd,
        ComponentType::Lm => Hook::LmEnd,
        ComponentType::AdapterFormat => Hook::AdapterFormatEnd,
        ComponentType::AdapterParse => Hook::AdapterParseEnd,
        ComponentType::Tool => Hook::ToolEnd,
        ComponentType::Evaluate => Hook::EvaluateEnd,
    }
}

} // verus!
