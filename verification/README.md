# godot_gsplat

Gaussian splats for the Godot engine: importing them from glTF scenes, cutting large clouds into
spatial chunks, writing and reading packs of them, choosing what is shown within a budget, building
the textures that are drawn, and sorting the splats by depth.

The library under `src/` is verified with Verus. It takes and returns plain values: a float is held
by its bits (`floats::F32`), an engine dictionary is a list of keys and values
(`variant::Dictionary`), a resource of the rendering device is its handle.

| module | what it states |
| --- | --- |
| `chunking` | a payload is permuted into chunks, and a budget is spent over them |
| `view_selection` | a budget is spent by what the viewer sees |
| `gsplat_pack` | the pack format: layout, writing, reading, and which pages a selection needs |
| `import_state` | splat primitives of a glTF scene are inspected and decoded |
| `asset`, `render_packet`, `render_manager` | the cloud, what is handed over for drawing, and who holds it |
| `cloud_settings`, `backend`, `import_options`, `scene_import_plugin` | settings and how they are read |
| `gltf_extension` | which nodes of a scene become splat nodes |
| `node` | the splat node: profiles, streaming, render sets, the sort on the device |

The public proof functions state what holds across functions; their doc comments say it in words.

`app/` registers the classes with the engine. It reads and writes files, runs the worker threads,
talks to the rendering server and does the floating-point work, whose results it hands to the
library. `tests/` runs the library on concrete values.
