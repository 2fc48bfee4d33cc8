# k210_camera

The core of a camera web server for a K210 board, verified with Verus, and the firmware around it.

The board captures frames from an OV2640 sensor and serves them over a WiFi modem that hangs on a
UART: as BMP files at three resolutions, with optional denoising, or as JPEG files.

## Layout

- `src/` is the library. It touches no hardware. What computes is a function with a contract; what
  talks to hardware is a list of register accesses to be performed in order, or a machine that says
  what to do next and takes the answer.
  - `jpeg` encodes RGB565 frames as baseline JPEG files.
  - `image` denoises frames; `pixel` reads them.
  - `bmp`, `capture`, `http`, `text` make responses; `pipe` sends them in a window of two frames.
  - `query`, `server` decide what a request gets; `server::session` is the life of the server, and
    `server::log` what it says on the console.
  - `uart_wifi` is the link to the modem; `nina` is the same coprocessor over SPI.
  - `dmac`, `dvp`, `rtc`, `gpio`, `clock` drive the peripherals.
  - `creds` reads the credentials of the network.
- `app/` is the firmware: it performs what the library asks for. It expects the sensor's register
  settings (`OV2640_BASELINE`, `OV2640_QQVGA`, `OV2640_VGA`, `OV2640_JPEG_QVGA`) to be linked in. Its
  build script, `credentials.rs`, reads the credentials from `wifi_creds.env` and hands them to the compiler
  as `WIFI_SSID` and `WIFI_PASS`.
- `tests/` runs the library on concrete values.

What holds beyond single functions stands in public proof functions whose names begin with `law_`:
for example that a decoder gets every block of a JPEG scan back, that a scan holds no marker, that a reply is found behind line
noise, that no more than two frames are in flight, and that the camera is set up for what a request
gets.
