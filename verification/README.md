# bargo

Turns a tree of application folders into what Argo CD deploys: for each target a copy of every
application folder with its templates rendered, the values for its chart, the Argo CD projects, and
the Argo CD applications that deploy all of it.

The library in `src/` holds the logic, and is verified with Verus. Sixteen small wrappers around
calls of `serde_json`, `serde_yaml`, `regex`, `tera` and std, and two specifications of functions of
`serde_json` and std, are trusted: their contracts are stated and not proved. All other functions are
verified. Rendering is required to return: templates that panic or never end are left out.


- `processor` and `steps`: the course of a run, as a function from events to actions
- `targets`, `app_project`: the projects of each target and what they allow
- `folder`: what becomes of the files of an application folder
- `json`, `convert`: JSON values, and how options and variables are laid over one another
- `names`, `path`: DNS names, and the names that paths give
- `template`, `filters`: rendering, and the filters `yaml_encode` and `nindent`
- `config`, `error`: what the files of a tree say, and what can go wrong
- `sorted_map`, `unique`, `order`, `text`: the data structures underneath
- `laws`, `runs`, `gathered`: what holds of the library as a whole, and of whole runs

`app/` reads and writes the files, runs the scripts, and drives the library.
