# OpenDR

An LDAP directory server whose decisions are verified with Verus.

* `src/` is the library. It decides: which answer a request gets, which entries
  a filter matches, what a search may return and when it ends, how messages,
  controls, URLs, LDIF and HTTP requests are read, how the parts of the server are
  reported, and in which order it starts and stops. The contracts state what
  the functions return; where that rests on the clock or on chance, a function
  beside it takes the reading as an argument. What holds across functions
  stands as public proof functions at the end of the modules, under "Laws".
* `app/` is the program around it: sockets, files, the encoding of replies,
  the command line, and an in-memory directory.
* `tests/` runs the library on concrete values.

A request is handled in steps. The library is given the request and the facts
that are known so far, and says what to do next: look up an entry, ask whether
the client may do something, send an answer. The program does that, adds what it
learned to the facts, and asks again. The contract of each `step` says for every
request and all facts which step comes next.

What comes from other crates (`ldap_parser` for messages, `ldap3` for filter
texts, `url`, `base64`, `rand`, `uuid`) and from the clock is called in small
functions whose contracts are not proved; each says in its comment what it takes
for granted.
