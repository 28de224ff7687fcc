# HypeMuzik

The logic of a desktop audio player, verified with Verus: an effect chain for system-wide audio, a
script language for effects, imports of equalizer curves, presets, playlists, radio and television
directories, phones on the network, a mixer of apps, and the separation of tracks into stems.

- `src/` is the library. What a function does stands in its `ensures`, and what holds across
  functions stands in the proof functions whose names begin with `law_`. All of it is verified but
  for what it takes on trust, which is listed below.
- `tests/` runs the library on concrete values, with the arithmetic of the machine.
- `app/` is the program around the library: databases, files, sockets, models, and the copies of
  types that are serialised.

## Numbers

The library holds floating point numbers as their bits. It compares them, negates them and cuts
them to ranges itself; addition, logarithms and the like are a function that the caller hands in
(`dsp::arith` for single precision, `wide` for double precision). A contract then says: if that
function always yields what `g` says, the result is this expression in `g`. The same holds of the
functions that read numbers from text, transform windows of samples, or run a model.

## What is taken on trust

These contracts are believed, each with a doc comment that says what it claims of the outside code:

- `encoding::encode_standard` (`base64`), `encoding::json_field` (`serde_json`),
  `encoding::random_bytes` (`getrandom`), and `remote::read_id` (`iroh`);
- of the standard library, in `text`: `char::is_alphanumeric`, `char::is_alphabetic`,
  `str::to_lowercase`, `str::to_uppercase`, `String::push`, and the quoting of a text in `text::quote`.

Some of them speak of a spec function without a body, which names what the outside code returns.

## Modules

| Modules | What they hold |
| --- | --- |
| `dsp` | the effects, the design of their filters, the stages in a format, all of them in a rack, and chains of other stages |
| `script` | lexer, parser, compiler and stack machine of the script language |
| `presets`, `store`, `chain_presets`, `types` | settings and what is kept of them |
| `graphic_eq_import`, `vdc_import`, `autoeq_db`, `ddc_library`, `headphones` | curves and profiles |
| `media`, `media_store`, `radio`, `tv`, `video` | the library of tracks, and streams |
| `link`, `bonjour`, `remote`, `encoding` | phones, near and far |
| `stems`, `overlap`, `separation` | stems of tracks |
| `platform`, `apo_ids`, `apo_ipc` | apps of the system, and the driver of the effects |
| `text`, `float_bits`, `wide`, `error`, `license` | what the others share |
