# silence_cutter

Removes the silences from recordings with ffmpeg.

The library in `src/` is written in Verus: it finds what to keep of a recording, splits it into
batches, writes the commands and filter graphs for ffmpeg, leads an export through its stages and
answers the commands of the application. Every function states what it returns, and the laws that
hold of the library as a whole are proof functions whose names begin with `law_`.

Times are IEEE 754 doubles, held as bit patterns; their arithmetic is verified to be correctly
rounded, halfway cases to even.

`app/` runs ffprobe and ffmpeg, touches files and windows, and turns text into floating-point
numbers and back. `tests/` runs the library, its arithmetic side by side with that of the machine.

What is believed without proof stands in `src/paths.rs`: the local time as formatted by chrono, and
four functions of `std::path`.
