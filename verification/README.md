# Astrum

A starboard bot for Discord: when enough distinct people react to a message
with one of a server's star emojis, the message is reposted to the server's
starboard channel as a components-v2 post, and its star count is kept up to
date as more people react.

## Layout

- `src/` is the library, verified with Verus. It holds every decision the bot
  makes and every payload it sends:
  - `emoji.rs`: reading an emoji an admin typed, its stored form, matching
    reactions against the configured list;
  - `storage.rs`: each server's settings, starred messages, the avatar emoji
    cache and its least-recently-used eviction, loading migration;
  - `handler.rs`: which reactions count, counting distinct people, when a
    message is posted or its post refreshed, the emoji panel's buttons;
  - `commands.rs`: the `/config` commands and the panels they answer with;
  - `starboard.rs`: the layout of a post (text, reply line, forwards, media,
    stickers, embeds, tally);
  - `components.rs`: components-v2 components and their JSON;
  - `api.rs`, `avatar.rs`, `voice.rs`: request bodies and endpoints;
  - `model.rs`: the parts of a Discord message the bot reads;
  - `text.rs`: decimal numbers, trimming, joining and other text helpers.
- `app/` is the program around it: the gateway client, slash command
  registration, HTTP requests, the `data.json` file, and the circle cut of
  avatars, which computes in floating point.
- `tests/` runs the library on concrete messages and settings.
