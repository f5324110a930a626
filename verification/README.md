# solark_monitor

Polls a Sol-Ark inverter over Modbus, stores its values in InfluxDB and sends
alerts to Matrix when thresholds are crossed.

The decisions are made in a library that is verified with Verus; the program
around it does the input and output.

## Layout

- `src/solark.rs`: the inverter's registers, what to read and what it means
- `src/influx.rs`: the points of a round
- `src/matrix.rs`, `src/room_laws.rs`: the chat account and its rooms, and what
  a check of the rooms does as a whole
- `src/delivery.rs`: how a message gets to the rooms
- `src/condition.rs`: the condition of an alert
- `src/alerting.rs`, `src/alert_laws.rs`: alerts and reported errors, and what
  holds of them over many rounds
- `src/monitor.rs`: what is done about failures, and when
- `src/text.rs`, `src/text_map.rs`, `src/clock.rs`: texts, a map keyed by text,
  readings of the clock
- `app/`: the program
- `tests/`: tests of the library

## Configuration

The program reads `/etc/solark_monitor.toml`, or the file named on the command
line.

```toml
[influxdb]
enable = true
token = "..."
bucket = "power"
org = "home"
url = "http://localhost:8086"
tags = [{ key = "site", val = "home" }]

[solark]
poll_secs = 5
port = "/dev/ttyUSB0"
slave_id = 1
registers = [
  { metric = "battery_soc", addr = 184, datatype = "Percent" },
  { metric = "fault", addr = 103, datatype = "Bool64Bit" },
]

[matrix]
enable = true
user = "@bot:example.org"
passwd = "..."
server = "https://example.org"
allowed_users = ["@you:example.org"]
room_check_secs = 60

[alerting]
enable = true
alert_timeout_secs = 86400
alerts = [
  { metric = "battery_soc", check = "<20", msg = "battery low", delaysecs = 60 },
]
```

- `datatype` is `Bool`, `Bool64Bit`, `Watts`, `Percent`, `Hz` or `Volts`.
  `Bool64Bit` takes four words and says whether any of them is set.
- `check` starts with `<`, `>`, `=`, `<=`, `>=` or `!=`; the integer behind it
  is the limit. Where no integer stands there, `limit` gives one, which may be
  a fraction.
- `delaysecs` is how long the condition has to hold before a message is sent.
- `alert_timeout_secs` is the time after which a message is sent again while the
  alert is still true. It may be given in minutes as `alert_timeout_min`.

A message is sent when an alert occurs, and another when it clears.

The account joins a room when one of `allowed_users` invites it. It leaves a
room when one of its members is not among `allowed_users`, or when there is
nobody in it but the account itself.
