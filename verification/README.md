# deckr-mirabox-manager

MiraBox hardware manager for Deckr over NATS. A manager finds the MiraBox devices of its host,
speaks their protocol, advertises them, and carries input and commands between each device and the
controller that holds a valid contract on it.

## Layout

- `src/` is the library. Everything in it is verified with Verus: contracts are stated over
  mathematical models of the data, and the laws that relate several functions are public proof
  functions.
  - `protocol`: output and input reports of the devices
  - `policy`, `grammar`: the expression language in which layouts say which devices they are for
  - `layout`, `setup`: layouts, their controls, and the commands that set a device up
  - `worker`, `device`, `discovery`: one device from its connection to its end, and which devices are
    served
  - `routing`, `manager`: who may command a device and hear it, and what the manager publishes
  - `lanes`, `wire`, `envelope`, `state`, `nats`, `config`: messages, keys and records shared with
    the rest of Deckr
  - `text`, `text_map`, `numeral`, `json`: texts, maps, numerals and JSON values
  - `outside`: the functions of other crates that the library calls, each with what is believed of
    it
- `tests/` holds the tests of the library.
- `app/` is the program around the library: arguments, HID access, threads, the broker, and the
  serialised forms of the library's types. It needs the `deckr` and `deckr_core` crates, which come
  from the Deckr repository.

## Running

```sh
deckr-mirabox-manager --nats-url nats://127.0.0.1:4222
```

The manager takes part as `hardware_manager:<manager-id>` on the `hardware_messages` lane. Its id is
`mirabox-rust-<hostname>`, unless `--manager-id` gives another.

Environment variables:

- `DECKR_MANAGER_ID`
- `DECKR_NATS_URL`
- `DECKR_CONCORD_TOKEN_REFRESH_SECONDS`, 15 by default
- `DECKR_STATE_RECONCILE_SECONDS`, 300 by default

Layouts are read from `layouts/built-in` when the manager starts.
