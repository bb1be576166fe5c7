# goose_local_inference

Text-based tool-call emulation for local models without native tool calling,
verified with Verus.

Models are prompted to write shell commands as `$ command` lines and code as
```` ```execute_typescript ```` fences. A streaming parser turns model output,
fed to it chunk by chunk, into text, shell commands and code to execute,
while ordinary Markdown (other fences, list items, fences inside list items)
passes through as text. What is proved of chunking: an empty chunk does
nothing; chunks that end at line ends are read exactly as the whole text;
without code mode any cut only splits one text in two; and in either mode,
output with no tool syntax (no line starting with `$`, and in code mode no
`execute_typescript`) comes out as exactly the same text however it is
cut. Over a whole stream, code is executed only after a line that opens a
top-level `execute_typescript` fence. A cut inside a line in code mode can
leave the parser in another state: after the line `1.    a`, a line of
six spaces and three backticks opens a fence inside the list item, but
cut after its first backtick it is read as text. Tests check that the actions agree on such
cuts; no proof covers it.

## Layout

- `src/text.rs`: sequences of characters: spans, trimming, searching.
- `src/markdown.rs`: indentation, list markers, fence openings and closings,
  and the lines that may still become one of these.
- `src/tool_emulation.rs`: the streaming parser, specified step by step
  (`step`, `run`, `spec_flush`), the messages actions become, and the tool
  section of the prompt.
- `src/laws.rs`: properties of the parser over all inputs: progress, well
  formed actions, where commands and code can come from, what passes through
  unchanged, what flushing leaves, and that text released while a line is
  unfinished can never turn into a command, a fence opening (outside
  lists) or a closing fence line.
- `src/chunking.rs`: how reading depends on the way output is cut into
  chunks.
- `src/stream.rs`: a whole stream read chunk by chunk from a fresh parser:
  where executed code comes from, and what passes through untouched.
- `src/tool_description.rs`: the tool section of the prompt.
- `src/system_prompt.rs`: the values the small-model system prompt is
  rendered with, and its fallback.
- `src/llamacpp/inference_emulated_tools.rs`: the decisions of a generation
  turn (when to stop, what is still parsed at the end).
- `app/`: rmcp tools and requests, tool-call ids, the environment, and the
  loop that sends a turn's messages.
