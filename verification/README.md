# flash_lso

Reading and writing of Adobe Flash Local Shared Objects (`.sol` files), of the AMF0 and
AMF3 encodings they hold, and of AMF packets, as a library verified with Verus.

- `src/` is the library. Each decoder is stated as a spec function over the input bytes
  (`spec_amf0_value`, `spec_value`, `spec_lso`, `spec_packet`, ...), each encoder as a spec
  function giving the bytes written (`enc0_value`, `enc_value`, `enc_packet`, ...), and the
  executable functions are proved to compute them.
- `src/roundtrip.rs` and the modules under `src/roundtrip/` prove that what the encoders write
  the decoders read back: LSO headers, AMF0 values of any depth (`nested.rs`), AMF3 scalars and
  vectors of numbers, AMF3 arrays and objects inside each other at any depth, and sequences of
  AMF3 values in which back-references name objects written before (`plain.rs`, with the steps
  for arrays and objects in `arrays.rs` and `objects.rs`), dictionaries and vectors of objects
  holding such values, values of externalizable classes written and read by a user's codec
  or by the flex collection layouts (`external.rs`), AMF0 and AMF3 bodies, and packets.
- Externalizable classes are read and written by the decoder and encoder registered for their
  class name: one of the flex message layouts, which the library reads and writes itself
  (`src/extra/flex/`), or an implementation of `CustomDecoder` / `CustomEncoder`
  (`src/amf3/custom_encoder.rs`), whose contract the decoder's and encoder's own contracts
  are stated over.
- The AMF0 writers (`src/amf0/writer.rs`) share the `ObjWriter` trait; `lemma_keys_history`
  and `lemma_first_use` state how references are numbered over a writer's whole history.
- `app/` is the `lso-to-json` command line tool, which reads files and prints JSON.
- `tests/` holds the tests, run against the compiled library.
