# deepseek-desktop

The decisions of a thin desktop shell that boots the `dsh web` host and shows
it in a native window, verified with Verus.

- `src/` — the verified library: the host command (`command`), the boot with
  its fallback to the system `dsh` (`boot`), readiness and URL polling
  (`readiness`), the bounded tails of host output (`tail`), the parsers for a
  manifest field (`json_field`) and for the announced web URL (`web_url`) over
  a shared character model (`text`), the upgrade purge decision (`upgrade`),
  window decisions (`shell`) and the update policy (`updater`).
- `app/` — the unverified shell around it: processes, sockets, files, threads
  and the Tauri window.
- `tests/` — runtime tests of the library.
