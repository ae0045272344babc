# red

The backend of three small services:

- **countdowns** — names with the dates that they count down to;
- **mc** — a control panel for Minecraft servers in a cluster: the server list, live
  logs, consoles, and the logs of previous boots;
- **systems** — a maintenance tracker that turns neglected habits into a deficit and
  pages when it grows too large.

## Layout

`src/` is the library, written in Verus. It holds what the service decides and
computes, as functions on plain values with proved contracts:

| module | what it holds |
| --- | --- |
| `text` | trimming, numerals, prefixes, the order of strings |
| `order` | stable sorting |
| `http`, `store` | answers, and the commands to the key-value store with their meaning |
| `countdowns` | the countdown store |
| `mc::names`, `mc::servers` | server names and the server list |
| `mc::boots`, `mc::history` | the boots of a server, from its log streams |
| `mc::logs`, `mc::rcon`, `mc::socket` | live logs and consoles, step by step |
| `systems::calendar`, `systems::scalar` | days as numbers, and the numbers of the model |
| `systems::model`, `systems::adherence` | fitness, floor, deficit and adherence |
| `systems::steadiness` | laws of the model for numbers that keep an order |
| `systems::tracks`, `systems::sessions`, `systems::views`, `systems::keys` | what requests read, store and are answered |
| `systems::pager`, `systems::tick` | pages, and the look at the tracks that sends them |

Where the library must wait for the outside (the cluster, a socket, the store), it is a
machine: a step takes a state and what the last action led to, and returns the next
state and the next action. Each module states at its end, as proof functions, the laws
that its functions keep together.

`app/` is the service itself: routes, JSON, and the connections to redis, the cluster,
the log store and ntfy. It performs the actions and hands back what came of them.

## What is trusted

`systems::calendar` calls `chrono` for the local day of an instant, the clock, the shift
of a day, its weekday, and the writing and reading of dates. `text` gives `String::push`
a contract. Each of these says in its comment what it claims. The model is generic in
its type of numbers (`systems::scalar::Scalar`) and assumes nothing of it: its contracts
say which operations a result is made of, in which order.
