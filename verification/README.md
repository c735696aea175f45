# Parakeet

A messenger core that sends over Matrix by default and falls back to SMS
when Matrix cannot be reached, then reconciles the two copies of one
logical message into one: the SMS carries the message's id in a short
trailer, the Matrix backfill carries the same id, and the receiving side
keeps a single record and deletes the SMS row from the device.

The library in `src/` is verified with Verus:

- `id`, `sms_frame`, `schema`: message ids in base 32, the SMS trailer, the
  Matrix content keys and transaction ids.
- `message`, `outbox`, `reconcile`: the record of a message, the send
  decision for an outbox entry, and the decision for an arriving copy.
- `store`, `directory`, `connectivity`, `activity`, `ids`, `clock`, `ports`:
  the client's surroundings and their in-memory implementations.
- `client`, `ingest`, `send`: a device's client, receiving and sending.
- `transport`, `matrix_fake`, `sms_fake`, `feed`, `demo`: the transports,
  an in-memory homeserver and carrier, the activity feeds, and the
  two-device demonstration.

`app/` holds what Verus does not see: the JSON wire format of Matrix
content (serde), asynchronous transport interfaces over shared handles,
and a small executor.
