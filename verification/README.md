# v2a03

The Ricoh 2A03 (the NES CPU) at the level of its measured behaviour,
written in Verus: every executable function in `src/` carries a
contract, and Verus proves the code meets it.

## Layout

| Module | What it holds |
|---|---|
| `tables` | The measured tables the APU is built around (length table, duty sequences, frame-sequencer positions, the two LFSR timers) and what the machinery needs of them (`Tables::wf`, checked by `Tables::check`). |
| `fit` | The fitted half-step offsets: where each unit's action sits inside its period. |
| `apu` | The APU: squares, triangle, noise, DMC, frame sequencer, `$4015` status, and the sample bus with its log of reads (`SampleBus`, `SampleImage`). Each unit's transition is a spec function; each method is proved to perform exactly it. The laws the model keeps stand at the end of the file. |
| `rung` | The whole chip at the pins around an outside core: the APU fed from the core's writes, the sprite DMA and the DMC fetch stalls, as a step function from the core's frame to the next state and the actions the host performs, with the laws of a whole sprite DMA and a whole DMC stall. |
| `lockstep` | The pin frame and the classifier that compares two pin streams frame by frame (the stack-page offset, the write-phi1 byte, the S leak, and the loud fields). |
| `harness` | The memory service of the bus harness (loads, the reset vector, reads with the optional mutation, writes), the bounded wait for the divided clock, and bit packing. |
| `pins` | The core at the pin contract: loads placed in memory, the input pins, and the pin frame read off node levels. |

`app/` holds what cannot be verified: the two DAC levels (floating
point) and the environment switch for the frame-write parity.

`tests/` exercises the library on concrete values: the scenarios the
measurements give (the 144-half-step square plateaus, the triangle's
ramp, the 1,027/1,029 half-step sprite-DMA stall) and one test per law.
