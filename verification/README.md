# create-dotslash

Create [`dotslash`](https://dotslash-cli.com/) files from URLs, automatically computing sizes,
hashes, and paths.

- Fetch the binaries in the latest version of a repository and create a file named after them:

  ```sh
  create-dotslash github:71/ifctc --output .
  ```

- Fetch archives, pick the binary called `rad` in them, then print the `dotslash` file:

  ```sh
  create-dotslash https://files.radicle.dev/releases/latest/radicle-1.9.1-{aarch64,x86_64}-{apple-darwin,unknown-linux-musl}.tar.xz
  ```

- Generate a `/bin/sh` script instead of relying on Dotslash:

  ```sh
  create-dotslash github:facebook/dotslash --format sh --output tools
  ```

## Layout

- `src/` is the library, in Verus: what is asked for, what file names and digests say, which
  artifacts of a release are used, what a download amounts to, which path in an archive is the
  binary, and what is written. Contracts are stated over texts as sequences of characters and files
  as sequences of bytes.
- `src/outside.rs` holds what is taken unproved from other crates, with what is claimed of it.
- `app/` is the program around it: command line, requests, prompts, progress, asynchronous readers
  and JSON.
- `tests/` runs the library on examples.
