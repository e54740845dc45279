# caption_assistant

The rules behind a Windows desktop assistant that pairs an embedded ChatGPT
browser with Live Captions, screen capture, prompt profiles and global
shortcuts, written in Verus with their contracts proved.

- `src/` is the verified library: caption cleaning and rolling-caption
  merging, caption batches, prompt building, the automation store (workflow
  guards, refresh/home resets, Mode 3 batches), the submission and upload
  recovery steps, profiles, shortcut parsing and settings, window moves,
  URL and page-automation rules, page scripts and how their answers are read,
  PNG framing of screenshots, diagnostics lines and configuration.
  The properties that span functions are public proof functions named
  `law_...`.
- `tests/` runs the library on concrete values.
- `app/` is the Tauri shell: WebViews, Windows APIs, threads, files and
  the waits around page scripts, with the decisions taken by the library.
