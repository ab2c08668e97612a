# heimai_shell

The verified core of the Heim-AI desktop shell, a thin native frame around
the web UI served by the Heim-AI orchestrator: tray, close-to-tray, global
hotkeys, pinnable answer popups, a floating voice indicator, desktop
screenshots and a local wake word.

`src/` holds what the shell decides and keeps, with Verus contracts:

- `popups`: the store of open answer popups (fresh decimal ids, payloads,
  stack places at the top right, pin marks) and the placement of a new popup;
- `wakeword`: the wake-word pipeline between microphone and models (chunking,
  energy squelch with hangover and pre-roll, spectrogram frames, embedding and
  classifier windows, cooldown), and the choice of the wake-word model file;
- `remote`: which server origins may call the shell, and the capability each
  gets;
- `settings`: the settings file that remembers the server address;
- `commands`: the shell's identity, switching servers, opening popups;
- `windows`: navigation of the main window and the indicator's behaviour;
- `hotkeys`: hotkey bindings, tray menu and close-to-tray;
- `screenshot`: monitor choice, scaling to at most 1600 px, PNG and Base64;
- `urls`, `text`, `handle`: page addresses, string helpers, the engine's stop
  flag.

`app/` is the Tauri program around it: windows, tray, plugins, audio input,
ONNX inference, screen capture and files.
