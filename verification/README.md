# haven_core

The decisions of a chat application with image generation, as a library verified with Verus.

- `context_window`, `executor`, `model_metadata`: fitting a prompt into the context window of a
  model, the output budget that is left, the outcome of a generation, and where the window of a
  model is known from.
- `image_generator`: requests for images, the prompts made of them, the adapters for AI Horde,
  plain HTTP services and Gradio interfaces, following up jobs, and what is stored and recorded.
- `chub`: searching the Chub catalogue, reading the character card in a PNG image, importing a
  character with its lorebook.
- `json`, `text`, `text_map`, `fraction`, `order`, `pairs`, `stamp`: the values that the rest works
  on.

Every public function states what it returns; laws that relate several functions are public proof
functions whose names begin with `law_`. Calls into `serde_json`, `flate2`, `base64`, `reqwest`,
`uuid` and `chrono` stand behind small functions whose doc comments say what is taken on trust.

`app/` holds the commands around the library: network, database, clock and the user interface's
data. What the shell of the application has to provide is the trait `Host`.
