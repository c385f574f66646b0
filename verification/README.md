# twincatads

A client for the TwinCAT ADS router of Beckhoff controllers. The library in
`src/` holds the logic of the client, verified with Verus; `app/` holds the
calls into the TcAdsDll, the notification task and the conversions to the
value types of `mechutil`, `serde_json` and `serde`.

## Library (`src/`)

- `codec`: little-endian bytes of fixed-width integers.
- `variant`: the dynamically typed values read from and written to the
  controller; floats are held by their bit patterns.
- `text`: searching and splitting text, and the few calls into `std` that
  read numbers and UTF-8.
- `address`: AMS net ids and addresses, and reading an address from text.
- `name_map`: a map from names to values kept in the order of the names.
- `symbols`: the symbol and data type tables, and looking up a symbol or a
  field of a structure by its full name.
- `loader`: reading the symbol and data type tables from the bytes the
  controller uploads, including the array bounds written in type names.
- `ads_data`: data type ids, and plain values to and from bytes.
- `deserialize` / `serialize`: structures, arrays, strings and plain values
  read from and written to bytes in the layout the tables describe, with the
  laws that a value written is read back unchanged.
- `json`: JSON values turned into values shaped as a symbol describes.
- `registry`: the symbols registered for notification, and client ids.
- `client`: what each event from the router tells the owner of a client,
  how a symbol is registered for notification, and the values read and
  written for a symbol.

## Around it (`app/`)

`AdsClient` opens the router ports, uploads the tables, registers
notifications and runs the task that turns router events into
notifications, calling the library for every decision.
