use dspy_core::callback::{
    add_global_callback, clear_global_callbacks, end_hook, get_global_callbacks,
    set_global_callbacks, start_hook, CallbackRegistry, ComponentType, Hook,
};



struct CountingCallback {
    start_count: usize,
    end_count: usize,
}

impl CountingCallback {
    fn new() -> Self {
        Self { start_count: 0, end_count: 0 }
    }

    fn invoke(&mut self, hook: Hook) {
        match hook {
            Hook::ModuleStart | Hook::LmStart => self.start_count += 1,
            Hook::ModuleEnd | Hook::LmEnd => self.end_count += 1,
            _ => {}
        }
    }
}

#[test]
fn test_invoke_callbacks() {
    let mut cb = CountingCallback::new();
    cb.invoke(start_hook(ComponentType::Module));
    assert_eq!(cb.start_count, 1);
    cb.invoke(end_hook(ComponentType::Module));
    assert_eq!(cb.end_count, 1);
    cb.invoke(start_hook(ComponentType::Lm));
    assert_eq!(cb.start_count, 2);
}

#[test]
fn test_global_callbacks() {
    let mut registry: CallbackRegistry<CountingCallback> = CallbackRegistry::new();
    clear_global_callbacks(&mut registry);
    assert!(get_global_callbacks(&registry).is_empty());
    add_global_callback(&mut registry, CountingCallback::new());
    assert_eq!(get_global_callbacks(&registry).len(), 1);
    clear_global_callbacks(&mut registry);
    assert!(get_global_callbacks(&registry).is_empty());
    set_global_callbacks(&mut registry, vec![CountingCallback::new(), CountingCallback::new()]);
    assert_eq!(get_global_callbacks(&registry).len(), 2);
}

#[test]
fn each_component_has_its_hooks() {
    assert_eq!(start_hook(ComponentType::Tool), Hook::ToolStart);
    assert_eq!(end_hook(ComponentType::Tool), Hook::ToolEnd);
    assert_eq!(start_hook(ComponentType::AdapterFormat), Hook::AdapterFormatStart);
    assert_eq!(end_hook(ComponentType::AdapterParse), Hook::AdapterParseEnd);
    assert_eq!(end_hook(ComponentType::Evaluate), Hook::EvaluateEnd);
}
