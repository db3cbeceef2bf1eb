# cloppy

A file search tool for NTFS volumes: it keeps an index of every file and
directory of a volume in memory, finds files by a part of their name as the
user types, and follows the volume's change journal to keep the index up to
date.

The `cloppy` library holds the logic, with contracts proved by Verus:

- `storage`, `files`: the index (directories and files sorted by id, a sorted
  table of shared names), writing, deleting and looking up entries, paths,
  search by name, applying change-journal changes;
- `usn_record`, `journal`: change-journal records, reading a journal buffer,
  what each record means for the index;
- `item`, `state`, `icons`: the rows of the file list (name pieces that match
  the query, sizes in kilobytes, paths) and their icons;
- `list_header`, `window`, `actions`, `settings`: the window's columns and sort
  arrows, what each window message leads to, the layout, the actions and the
  saved settings;
- `datarun`: NTFS run lists;
- `order`, `text`, `bytes`, `errors`, `file_entity`: shared pieces;
- `laws`: properties of the index across operations.

`app/` is the program around it: loading the stored index, the Windows window
and the change-journal reader.
