# neosh

The decisions of a terminal-first agent workspace, written in Verus: what goes on screen, what a key
means, what a plugin or another machine may have done, and what happens next. Each function states
what it returns or changes, and Verus proves it.

| where | what |
|-------|------|
| `src/markdown` | answers as they are drawn, whole or as they stream in |
| `src/notify` | what is worth interrupting somebody for, and how a desktop is told |
| `src/images` | pictures: what they are, what is sent of them, where a clipboard says they are |
| `src/paths`, `src/logo`, `src/cli` | where everything lives, the word at the top, the one-shot commands |
| `src/host` | the workspace itself: transcript, cards, keys, search, turns, calls, startup, swarm |
| `src/text`, `src/words`, `src/measure` | the small questions about text that the rest asks |
| `app` | arguments, the environment, files, other programs and the network |

Laws stand beside what they are about, as public proof functions whose doc comments say them in
words: that a stream ends up where one shot does, that nothing is said twice, that no turn writes into
another's transcript, that nobody waits for a machine that is gone.
