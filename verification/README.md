# async_resource

Locks, one-shot and many-sender channels, and resource pools for threads and tasks,
with contracts that Verus proves.

## Layout

- `src/` is the library. Every step that a thread or a task takes on something shared
  is a method on one value, and its contract gives the state after the step as a
  function of the state before it. Public proof functions whose names start with
  `law_` state what holds across steps.
- `tests/` runs the library step by step.
- `app/` puts the library behind mutexes: futures, threads, wakers, executors, the
  clock, and the callbacks of the user.

## Modules

| module | what it is |
| --- | --- |
| `option_lock`, `once`, `try_mutex` | a read/write lock around an `Option`, and two uses of it |
| `util::option_lock` | a lock whose whole condition is one word |
| `dropshot`, `notify` | a channel for one value, and the wake-up it rests on |
| `channel` | a one-shot channel, two queues for many senders, iterations over them, wakers |
| `resource` | locks of resources, what is known about them, work on them |
| `shared`, `wait`, `timers`, `queue` | what the users of a pool and its manager share |
| `pool` | a pool that counts its waiters and can be drained |
| `arp` | a pool whose manager says when it is busy |
| `lifecycle` | a pool whose resources are kept alive and disposed of by handlers |
| `park`, `executor`, `util::thread`, `util::injector` | sleeping threads, and work for them |

## What is trusted

`queue` declares `concurrent_queue::ConcurrentQueue` and states what `unbounded`,
`bounded`, `push`, `pop` and `is_empty` do to the entries of a queue.
`util::option_lock` asks `Arc::ptr_eq` whether two handles are of the same lock, and
states nothing of the answer. Nothing else is believed without proof.
