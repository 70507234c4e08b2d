# yuru_auto_backup_gdrive

A resident desktop tool that copies Premiere Pro project files (`.prproj`) once a day
into a folder that Google Drive for desktop keeps in sync.

- `src/` is the library, verified with Verus: which files a run copies and where each
  copy goes (`backup`), the path model it rests on (`paths`), the daily schedule and the
  scheduler's decisions (`clock`, `scheduler`), the settings file's load and save
  decisions (`config`), the dashboard status (`status`), where settings and logs live
  (`app_dir`), Google Drive folder detection (`drive_detector`), waiting for the
  destination (`drive_waiter`) and the log text (`logger`). Public proof functions state
  the laws the library keeps.
- `tests/` runs the library on concrete inputs.
- `app/` is the desktop program around it: the window and tray, the scheduler thread,
  file and registry access, and the JSON form of the settings.
