# lilith

The logic of the Lilith neural-core viewer and its voxel sandbox, as a Verus-verified library,
with the window, GPU, audio and floating-point models around it in `app/`.

## src/ (verified)

- `chunk`, `chunk_mesh`: blocks, chunks, the sparse world, terrain generation from column
  heights and tree rolls, world reads and writes, collision boxes, stale chunks and face culling.
- `nn`: the neural core's pipeline stages, bounded log, requirements and human requests.
- `llm`, `tokenizer`: the question data set parser, the character tokenizer, the model
  configuration and the chat history.
- `talk`: kana to voice-sample names.
- `assets`: GPU assets and the registry that holds them by name; file-extension kinds.
- `ecs`: entities and component stores.
- `mnist`: IDX file splitting and the CNN parameters.
- `ui`: UI enums, the text field with its byte cursor, and the chat line.
- `font_atlas`: the glyph atlas's characters, cell layout and coverage pixels.
- `image_header`: the text headers of the HDR and greyscale image files.
- `text`: character-level helpers shared by the parsers.

## app/

`main.rs` opens the neural-core window; `--voxel` runs the voxel sandbox instead.
