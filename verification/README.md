# Aula

The core of a desktop manager for courses on Canvas: it keeps the courses,
assignments, files and announcements of a student, sorts the files into
categories, asks models to sum them up, and hands deadlines to a calendar and a
to-do list.

- `src/` is the library. Everything it decides or computes is stated in contracts
  and proved with Verus: where a file is stored, what a synchronisation keeps, how
  the classification, download and summary runs go on, what is asked of a model
  and what is made of its answer.
- `tests/` runs the library on concrete values.
- `app/` is the application around it: files, network, external tools
  (`pdftotext`, `pdftoppm`, `notify-send`) and the commands of the user interface.

The library performs no input or output. A run (`SyncRun`, `DownloadRun`,
`ClassifyRun`, `SummaryRun`, `GeneralRun`, `CoursesRun`) says what it wants next;
the application fetches it and hands it back. Floating-point numbers cross the
library as their bits.
