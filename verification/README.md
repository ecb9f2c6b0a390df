# cvm-announcements

Two tools that keep a local `strfry` relay a live directory of ContextVM servers:

- the cleaner probes the servers whose announcements (kind 11316) the relay holds, counts the
  failed rounds of each in a row in a small JSON file, and deletes everything by a server once its
  count reaches the threshold;
- the crawler finds announcements on other relays, probes the servers, and brings the events of
  kinds 11316 to 11320 by those that are alive into the relay with `strfry import`.

`src/` is the verified library: what the tools decide, with contracts and the laws that hold of
them. `app/` is the program around it, which talks to relays, runs `strfry` and keeps the file:

```
cvm-announcements cleaner --dry-run
cvm-announcements crawler --dry-run
```

Contracts that are taken on trust stand in `src/outside.rs`, and one in `src/text.rs`.
