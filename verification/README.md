# keryx-miner

The decision logic of a Proof-of-Model miner, as a Verus library with an ordinary Rust crate
around it.

A miner walks pseudo-randomly over the weights of a language model, and wins when the value at the
end of the walk is at most the network's target. The library holds what there is to decide and to
compute; files, GPUs, the node's stream and the functions that an iOS app calls are in `app/`.

| Module | What it holds |
| --- | --- |
| `bytes`, `emu64`, `walk` | little-endian words, 64-bit arithmetic on 32-bit halves, and the walk on both |
| `order`, `layout`, `tensors` | the canonical tensor order, the weight layouts, and the tensors behind them |
| `pom_gpu`, `pom_gpu_metal` | miners over gathered, concatenated and packed weights, and their launches |
| `registry`, `install` | the installed miners, and how one is installed |
| `metal_worker` | the worker of a machine with one Metal GPU |
| `devfund`, `mining_loop`, `mining_worker`, `endpoint` | what is asked of the node, and what is mined |
| `download`, `ios`, `journal`, `text`, `paths` | the mining model, the app's calls, the log, text, and paths |

Proof functions whose names begin with `law_` state what holds across several functions.

The miner calls two outside crates from verified code: `candle-core`, for the size, the bytes and
the address of a tensor (`tensors`), and `tonic`, for the endpoint of an address (`endpoint`). What
is believed of these calls, and of the few of the standard library in `text` and `paths`, is
written above each of them.
