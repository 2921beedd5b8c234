# rollbacker

Rolls btrfs subvolumes and zfs datasets back to their "fresh" snapshots at
boot, and generates the systemd units that run the rollback.

Two behaviours of the rollbacker to be aware of:

- Its configuration refuses every zfs superblock path (the path is accepted
  only when the filesystem is not zfs and the path exists), so a zfs rollback
  stops at configuration; the rollback planning for zfs is there all the same.
- A fresh snapshot is taken to belong to the subvolume or dataset named by its
  first (suffix length in bytes + 1) characters.

- `src/` is the verified library (Verus):
  - `text`: character-level text operations (`split_whitespace`, `lines`,
    `trim`, `join`, ...) with their mathematical meaning.
  - `generator::config`, `generator::fstab`, `generator::systemd_generator`:
    the generator's options, the reading of fstab into superblock groups, and
    the unit files composed for each group.
  - `rollbacker::config`, `rollbacker::filesystem`: the rollbacker's options,
    the reading of `btrfs subvolume list` / `zfs list` output, the rollback
    plan, and the state machine that asks for one command at a time.
- `app/` is the program around it: option parsing with `lexopt`, reading and
  writing files, running commands. The binary acts as the generator when it
  is run as `systemd-rollbacker-generator`, and as the rollbacker otherwise.
- `tests/` runs the library on concrete inputs.
