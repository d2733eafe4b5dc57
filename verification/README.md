# prpr_recorder

Records gameplay: captured frames go to a video encoder on a constant frame rate, a
sidecar lists the audio position of every video frame, and a finger trace lists the
virtual fingers that a perfect player would hold on every frame.

`src/` is the verified library.

- `timestamp`: moments as binary64 bit patterns, and their order
- `recording`: which frames are sent to the encoder, repeated or skipped
- `channel`: the queue to the encoder
- `worker`: what the encoder's thread does with a frame, and the sidecar's lines
- `encoder`: the frame rate and the encoder's arguments
- `framebuffer`: which part of the framebuffer is read
- `names`: clean file names, the recording directory, the names of a recording's files
- `spans`: when each note of a chart holds a finger down
- `trace`: the fingers of each frame, and what went down or up
- `text`: decimal notation

Floating point stays outside of the library: times and positions come in as bit
patterns, and the number of frames between two moments is computed by the caller.
Functions named `law_...` state what holds of the library as a whole.

`app/` opens the files, runs the encoder and reads the framebuffer.
