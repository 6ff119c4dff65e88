# bellanote

The library behind BellaNote, a desktop notebook for meetings: organizations
hold topics, topics hold meeting groups, and meeting groups hold artifacts
(recordings and imported audio, video or transcripts) with their transcripts,
timed comments and a chat over the transcripts.

`src/` is verified with Verus. It holds the library's data model and every
operation on it (`db`), with the laws that relate them (`db_laws`), the
ordering of listed records (`order`), transcript file parsing
(`import_transcript`), the rules of imports, exports and failure messages
(`artifacts`), the recording state and live transcript (`recording`), the
packing of transcripts into a chat question (`chat`), the keychain token and
OpenAI replies (`llm`), the audio buffers and frame layouts (`capture`), the
waveform cache (`peaks`), paths (`files`), text helpers (`text`) and fresh ids
(`ids`).

`app/` is the application shell around it: the SQLite file, files on disk, the
transcription worker process, microphone capture, waveform decoding and the
HTTP request to OpenAI. It hands the library plain values and takes plain
values back.

`tests/` runs the library on concrete values.
