# polaris

A HyParView membership node (Leitão, Pereira and Rodrigues, DSN 2007).

- `src/` is the verified library:
  - `net`: IPv4 socket addresses and their text form;
  - `text`: trimming, splitting and decimal numbers over bytes;
  - `config`: the node's configuration and its six-line file format;
  - `hyparview::messages`: the wire format, with the law that every message
    reads back as written;
  - `hyparview`: the node's active and passive views and the handler for each
    event, specified over `spec_step`, with the laws about the views;
  - `hyparview::proto_messages`: protocol-buffer shaped messages and their
    field accessors;
  - `shipper`: the `Serializable` and `Shipper` traits, and `Courier`, a
    shipper with a record of what was handed to it and the answers.
- `app/` is the program around it: command line, configuration file, TCP
  listener and shipper, logging, the event loop and the shuffle timer.
- `tests/` runs the library on concrete values.
