# waylock-rs

A deliberately small screen locker for Wayland compositors that implement
`ext-session-lock-v1`: a solid background, a bitmap clock, a dot for each
character of the password, and a countdown after which the screen can be turned
off. Passwords are checked through PAM.

The logic is a library verified with Verus; the program around it talks to the
compositor, to PAM and to the system clock.

- `src/config.rs`, `src/args.rs`: the settings, the file that they are read from
  and the command line; `src/config_laws.rs`: what holds of them in general.
- `src/session.rs`: a lock session as a state that reacts to keys, the pointer,
  the clock and the results of authentications; `src/session_laws.rs`: what holds
  of every session, whatever happens in it.
- `src/render.rs`: what a surface shows, as the colour of each of its pixels;
  `src/canvas.rs`: drawing texts, dots and rectangles; `src/fits.rs`: whether
  something can be drawn on a canvas; `src/font.rs`: the font.
- `src/text.rs`, `src/number.rs`: characters, words and numbers.
- `app/`: the program.

## Usage

```sh
waylock-rs --color 4B3F72 --off-after 600
```

The countdown is visual by default. To power off displays when it reaches zero,
give a command for the compositor at hand, for example:

```sh
waylock-rs --color 4B3F72 --off-after 600 \
  --power-off-command niri msg action power-off-monitors
```

Options override the values of the file `~/.config/waylock-rs/config`, which has
lines such as `off-after = 600`. Surfaces have to be at least 80 pixels high.
