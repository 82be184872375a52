# kidneyos storage layer, verified

The storage and file-system layer of a small x86 kernel, written in Verus and
proved against its contracts.

- `src/block`: block devices and their manager, MBR partition tables (with
  extended partitions), a request queue and its NOOP scheduler.
- `src/dev`: an in-memory disk.
- `src/vfs`: the interface between the file table and the file systems (the
  `FileSystem` trait, modelled by the bytes of each regular file) and an
  in-memory file system.
- `src/fs`: the per-process file table (`RootFileSystem`, `FileSystemManager`,
  mounts, path resolution, `chdir`), a read-only FAT-16/32 reader, a VSFS
  reader, and in-memory inodes.
- `src/filesys`: a mount table that routes each path to the file system
  mounted at its longest prefix, and a FAT-16 reader that works sector by
  sector through a `DiskDevice`.
- `src/drivers`: the decisions of the ATA and PS/2 drivers (register
  programming, device detection, scancode handling) and the input buffer;
  the port I/O itself is left to the caller.
- `src/interrupts`: the interrupt level, the guard that withholds
  interrupts, the system clock, the table of unhandled-interrupt handlers and
  the entries of the interrupt descriptor table.
- `app/main.rs`: a host program that opens a disk image, lists its
  partitions and walks the FAT or VSFS file system on each, or lists the
  root directory of a FAT-16 image with the sector-by-sector reader
  (`app/disk_device.rs` reads the image file).

The tests under `tests/` build FAT and VSFS images in memory.
