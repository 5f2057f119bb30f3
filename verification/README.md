# pumpkin_advancements

Minecraft advancements for a server, verified with Verus.

- `src/ser.rs`: the protocol's primitive encodings (booleans, VarInts, strings,
  NBT strings) as writers into a byte buffer, each with the exact bytes it appends.
- `src/update_advancements.rs`, `src/select_advancements_tab.rs`,
  `src/seen_advancements.rs`: the advancement packets and their byte layouts.
- `src/string_map.rs`, `src/text.rs`: a string-keyed map viewed as a `Map`, and
  string comparison over characters.
- `src/advancement_data.rs`: each player's progress, the rules for granting
  criteria and completing advancements, and the laws those rules keep.
- `src/advancement_command.rs`: the `/advancement` command's syntax, the criteria
  it grants and the message it answers.
- `app/lib.rs`: the async lock around the progress, the clock, writing packets to
  an `io::Write`, serde forms of the stored records.
