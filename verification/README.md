# omnimind-server

The core of a headless wiki server: an HTTP service, started with `--server-only`, that lists,
reads, saves and deletes the files of wiki projects, searches them, shows how their pages are
linked, and gathers from them the context of a chat within a budget of characters.

`src/` holds everything that the service decides and computes, verified with Verus. It performs
no input or output: where a decision depends on the file system, a function returns the question
as a value, and the answer leads to the next step (`scope_check`, `listing`, `resolve`). Each such
machine comes with a proof of what it amounts to when it is run against any file system.

`app/` holds the program around it: the command line, the network, the file system, the bodies of
requests, and an interface to the engines for search, embeddings and documents.

| Module | What it holds |
| --- | --- |
| `route`, `url`, `response`, `json` | requests, responses and their JSON |
| `startup`, `projects` | how the service starts, and the projects that it knows |
| `mode`, `scope`, `scope_check` | what a question may read |
| `search`, `context`, `chat` | search hits, and the context that they are packed into |
| `files`, `listing`, `upload`, `images`, `extract`, `resolve` | the files of a project |
| `graph` | pages and links |
| `vectors` | the vector index |
| `text`, `paths`, `order` | texts, paths, and what is ordered |
