# carapace

A read-only block device that is layered out of a chain of scutes, each a
copy-on-write store with a dm-verity hash tree, and a producer that packages
scutes as OCI artifacts.

- `src/` is the library, verified with Verus. It does no I/O: it makes the
  requests to the kernel, says what is to be done next, and decides what the
  replies mean.
- `app/` is the program around it: system calls, ioctls, files and printing.
- `tests/` runs the library.

The library is in these modules:

| module     | what it holds                                                      |
|------------|--------------------------------------------------------------------|
| `dm`       | device-mapper requests and replies, listings, snapshot usage       |
| `assemble` | the stack of devices over a chain, and its rollback                |
| `loopdev`  | attaching a file to a loop device                                  |
| `boot`     | the steps of the init, the kernel command line and kernel modules  |
| `cli`      | verbs and flags                                                    |
| `oci`      | an OCI image layout, byte for byte                                 |
| `json`     | JSON values and their text                                         |
| `text`     | words, numbers and comparisons                                     |
| `bytes`    | numbers and strings in kernel replies                              |

Functions named `law_..` state what holds across functions. A few facts about
code from outside are believed rather than proved: what `serde_json` writes for a
value, what `hex` writes for bytes, that a SHA-256 digest follows from the bytes
alone, what the standard library's UTF-8 check and debug formatting do. Each
stands with the function that makes the call.
