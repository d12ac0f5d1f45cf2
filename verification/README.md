# gnome-shell-cast

Casts a GNOME desktop, a window or the system's audio to a Cast receiver. The
daemon is started over D-Bus, mirrors with low latency over encrypted RTP where
the receiver agrees, and exits when it has been idle.

The library in `src/` decides; the program in `app/` acts. Every function of the
library has a contract that Verus proves, and the promises that span several
functions are the `law_` functions at the end of each module.

| Module | What it decides |
| --- | --- |
| `rtcp` | sender reports, and what receiver feedback says |
| `bandwidth` | what the link carries, and the bitrate that follows from it |
| `pacer` | when packets go out, and when sending one is given up |
| `frames`, `crypto` | packetized frames, stream keys and frame encryption |
| `stream`, `sender` | numbering, retransmission, acknowledgements, reports, rate control |
| `encoder` | which codecs and encoders are used, and advice where hardware is missing |
| `pipeline` | settings, and the HLS and audio pipelines |
| `mirror` | offers, answers, the mirroring pipeline and the end of a session |
| `state` | the daemon's state, starting casts, exiting |
| `cast`, `volume` | keeping a receiver connected, and talking about its volume |
| `text`, `time` | text and time, as the others need them |

Time, sockets, threads, the media framework, the session bus and volume levels
(which are floating-point numbers) belong to the program.
