# xilem_radio

Radio buttons and radio groups for a retained view tree, written in Verus.

- `src/listeners.rs`: the change-listener list of a provided value.
- `src/environment.rs`: the environment through which a view provides a value to
  the views below it (slots, reference counts, free list), with its invariant.
- `src/radio.rs`: `RadioButton`, `radio_button`, `RadioGroup`, `radio_group` and
  the decisions they take when they are built, rebuilt and sent messages.
- `src/laws.rs`: properties that hold across these operations.
- `app/lib.rs`: glue to the Xilem runtime (view paths, messages, accessor calls,
  panics and logging).
