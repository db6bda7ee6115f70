# rust_actions

Scoped variable contexts for chains of action steps, verified with Verus.

- `src/scopes.rs`: the model of a stack of scopes (innermost first) and the laws of reading
  and writing variables in it.
- `src/context.rs`: the context keyed by numeric variable ids, with its result slot.
- `src/named.rs`: the context keyed by variable names, and its smaller value type.
- `src/display.rs`: how strings, integers and `Nil` are shown (with a verified decimal
  formatter).
- `src/value.rs`, `src/order.rs`: the dynamic value, its type tag, conversions, and
  comparisons with strings and primitives. Numbers are held as `f64` bit patterns.
- `src/scope_input.rs`: building a scope from named inputs and a name mapping, or from
  inputs keyed by decimal ids (with a verified `u32` reader).
- `app/`: the JavaScript side (rquickjs): values with real `f64` numbers, the shared
  `Rc<RefCell<Context>>` interface with its async `scope`, and the `$ctx` class.
