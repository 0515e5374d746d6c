# danbooru_tools

Verified core of a local Danbooru media workbench, written in Verus.

`src/` is the library. Its verified functions carry `requires`/`ensures`
contracts that Verus proves. The calls into outside crates and std (URL
parsing, SHA-256 and MD5, hex, Base64, HTTP dates, UUIDs, HTTP authority
parsing, paths, the clock) sit behind small trusted wrappers; each doc comment says what is
assumed of the call, and wrappers over the clock or a random source promise
only what holds of every result.

| module | what it decides |
| --- | --- |
| `tasks` | the persistent task state machine: creation, progress, cancellation, recovery, event replay |
| `danbooru_client` | API requests, status mapping, media URL policy, download planning, file names, part files |
| `image_processor` | caption tag pipeline, selected media, tool manifests (duplicates, integrity, delete, HEIC, resize) |
| `tool_manifest` | which confirmed manifests and files an operation accepts, quarantine moves, rollbacks |
| `similarity` | difference hashes, close pairs and near-duplicate clusters |
| `vllm` | vision captioning endpoint rules, prompts, output parsing, retries, result order, sidecar checks |
| `tag_manager` | the tag cache, caption sorting and bracket escaping |
| `cl_tagger` | local tagger model discovery and tag mapping order |
| `dataset_augmentation` | augmentation settings, sample and family naming, splits, output directories, crop rectangles |
| `text`, `digest` | string and ordering helpers, streaming SHA-256 and MD5 digests as text |

`app/` holds the services around the library: network and file I/O, image
decoding and encoding, the ONNX model, async plumbing, JSON forms of the
library's types, and the floating-point crop scoring. Content hashes and
`Retry-After` delays are computed by the library; app/ only reads the bytes
and the clock.

`tests/` exercises the library on concrete values.
