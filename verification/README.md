# enigma_breaker

Known-plaintext attacks on Enigma ciphers, with the search logic verified by
Verus.

The library (`src/`) never touches an Enigma machine itself. Each search is
a state machine: it hands out operations to carry out on a machine (build it,
turn the rotors, connect plugboard letters) and a query (encrypt a letter,
decrypt the text), and decides its next step from the machine's answer. The
program (`app/`) owns the Enigma machine, the threads, the files and the
command line, and runs these loops.

- `solver`: the plugboard search for every reflector, choice and order of
  rotors and rotor position (`SolverSearch`, or one job per rotor order with
  `MultiThreadedEnigmaSolver`), the letter statistics it starts from, and the
  operations that set a machine up from found settings.
- `breaker`: a single-rotor-order scan that walks the plain text character by
  character, and the letter frequency order of a plain text.
- `ioc_solver`: the scan for the decryption with the highest index of
  coincidence, kept as exact fractions.
- `utils`, `utils32`: Gosper's hack, the enumeration of `k`-subsets of
  `{1, ..., n}` in increasing mask order, and a sorted-neighbour lookup.
- `letters`, `text`: letter counts and ASCII upper case.
- `cli`, `commands`: the command-line data.
