# sim800l_gateway

The logic of a cellular vending gateway: an RP2350 board with a SIM800L modem, a
coin acceptor, a small screen and a fuel gauge, which talks to an MQTT broker
over PPP.

The library in `src/` is written in Verus. It does no I/O: bytes, replies and
timer ticks go in, and actions come out. What each function gives back is stated
in its contract and proved; what holds of several functions together stands in
proof functions whose names begin with `law_`.

| Module | What it holds |
|---|---|
| `cmux` | frames of the 27.010 multiplexer, the streaming decoder, control messages, channel states, and their laws |
| `cmux_transport` | writing to a channel, answering the modem, bringing the multiplexer up, the pump |
| `modem` | AT commands, replies, messages of the modem, SMS |
| `sim800l` | the way from the first `AT` to `CONNECT` |
| `link` | what to do when the link fails and while it stands |
| `mqtt` | topics, stages of a session, publications, commands from the broker |
| `coin`, `coin_io` | coins, credit, blocking, debouncing |
| `clock` | time from the network, signal scale |
| `display`, `health`, `led` | what is shown |
| `battery`, `lipo`, `fuel` | the supply |
| `demo`, `usb_logger`, `fmt`, `config` | the rest |
| `text`, `bounded` | reading and writing short texts |

What is believed and not proved is the behaviour of a few functions of
`heapless`, `rust-mqtt` and `core`. Each of them has a doc comment that says what
is believed of it.

`app/` is the firmware around the library: pins, UART, network, tasks.
`tests/` runs the library on concrete values.
