# geckolib

A GameCube / Wii disc patcher whose core is verified with Verus.

## Layout

- `src/` — the verified library:
  - `disc`, `iso`, `vfs`: disc headers, the file system table, the virtual
    file tree of a disc, and how it is laid out and written back
    (`vfs::fst_image` states what reading a written table gives back);
  - `iso::read`, `iso::write`: Wii partitions, their sector hashing and
    encryption;
  - `iso::builder`: putting a project's files into a disc and patching its
    main executable; `dol`: reading, patching and writing DOL executables;
  - `changes`, `patch_archive`, `checksum`: the differences between two
    discs, the layout of a patch archive, and the order-free checksum of a
    disc's files;
  - `crypto`, `iosc`, `wii`: big numbers, GF(2^233) and its curve, AES and
    SHA-1, the emulated IOS crypto engine, and signed tickets, TMDs and
    certificates;
  - `config`: the configuration of a rom hack project.
- `app/` — the input and output around the library: reading and writing
  disc images and zip archives, and the configuration file with its serde
  derives.
- `tests/` — tests of the library on concrete values.

The calls into outside crates (AES, SHA-1, SHA-3, RSA, bsdiff, bzip2,
setsum, random numbers) go through small trusted wrappers whose contracts
name or state what the crates compute.
