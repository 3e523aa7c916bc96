# outlook_pst

Planning and encoding of changes to Unicode PST files: messages with recipients, HTML bodies and
attachments, folders, and the block and node B-trees that hold them. Every function in `src/` is
verified with Verus.

- `src/ndb/`: blocks, data trees and subnode trees, the B-trees, allocation maps, the header, and the
  commit that writes a change behind the end of the file before the header names it.
- `src/ltp/`: heaps, property contexts and tables.
- `src/messaging/`: messages, recipients, attachments, folders and their paths, the receive folder, and the search
  update queue.
- `src/file.rs`: the state of an open file.
- `app/`: files, locks, and the calls into the library in the order in which a file is read and written.

A plan is a sequence of blocks with their places in the file. The modules whose names end in `_laws`
state what holds of plans as a whole: that data trees, tables, property contexts and messages read back
as they were given, that what was in the file before stays there, and in which order a commit writes.

Files that are encoded, and files of the ANSI format, can be opened but not changed.
