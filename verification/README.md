# hardware

Readings of Rockchip boards: how busy and how fast the processor cores, the GPU,
the NPU and the graphics accelerator are, how hot the board is, how full its
disks are, which network adapters it has, and what the board, its drivers and
its runtime libraries are.

The library in `src/` is verified with Verus. It reads nothing: it says which
files are to be read and makes readings of their contents. Each function states
in its contract what it makes of them, over the sequences of characters and
bytes that the files hold.

- `text`, `number`, `order`, `pattern`: texts, numbers in decimal notation,
  sorted lists, and the forms of version numbers, model names and loads
- `once`: outcomes that are kept from the first time on
- `gpu_source`: the search for the best place to read the load of the GPU
- `gpu`, `npu`, `rga`: loads, clocks and drivers
- `cpu_frequency`, `cpu_architecture`, `frequency`: the processor and the clocks
- `thermal`, `hwmon`: temperatures, fans and power
- `disk`, `network`: file systems and adapters
- `board`, `binary`: the name of the board, its chip, and the versions that
  library files carry
- `outside`: the functions of the standard library, of `regex` and of `goblin`
  that the rest is built on, and what is claimed of them

The proof functions whose names begin with `law_` state what holds of the
readings as a whole: that what a driver writes is read back, that the search
finds the source to be preferred, that the order of a listing makes no
difference.

`app/` reads the files and does what takes floating point.
