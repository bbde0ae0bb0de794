# parque_concurrente

A simulation of an amusement park whose customers, games and cashier run on threads of
their own. Money is kept in whole cents.

- `src/` is the verified library: reading the park's configuration from YAML text
  (`config`, `yaml`, `amount`), customers (`customer`), games and their administrators
  (`game`, `game_administrator`), the park itself (`park`), the tickets and queues that
  customers wait in (`ticket`), and the laws of the park's accounts (`ledger`).
- `app/` runs a day at the park: it reads `./config/config.yml`, starts the threads, waits
  on the semaphores, sleeps through the rides and writes the log.
- `tests/` exercises the library.

Run the program with the cash each customer brings (default `20.0`) and `--debug` to also
write the log to `/tmp/parque-oxidado.log`.
