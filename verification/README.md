# iphoto_exporter

Exports the albums of an iPhoto library (its `AlbumData.xml`) into one
folder per album, so that newer photo applications can import them. It also
writes a shell script that puts each image's comment into the metadata of its
copy with `exiv2`.

- `src/` is the verified library (Verus): the model of the library
  (`model`), choosing albums (`filter`), rebasing image paths (`paths`),
  reading the master image list (`iphoto`), checksums (`hash`), counts and
  duplicate checksums (`info`), the `exiv2` script text (`exiv2`), where
  albums and copies go (`export`), the logged dumps (`details`), the run
  options (`opts`) and when a progress bar is full (`progress`).
- `app/` is the program around it: argument parsing, reading the property
  list, files, the progress bar and logging.
- `tests/` holds the tests of the library.
