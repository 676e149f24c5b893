# taptap_rback

A backend that logs players in with their TapTap account and issues sessions of its own. The library
under `src/` decides everything that is to be decided and is verified with Verus; the program under
`app/` listens, sends the requests that the library composes and hands the replies back.

## Ways to log in

- **SDK**: a game hands in the MAC credential that TapSDK gave it. The service asks TapTap for the
  profile that belongs to it (`session`).
- **Device code**: a player scans a QR code and confirms while the front page polls (`device`).
- **Browser**: an authorization code with PKCE, where `PUBLIC_BASE_URL` is set (`web`).

Whoever TapTap answers with a complete profile gets a session: an HS256 token that lasts a day. No
identity is taken from what a client says of itself.

## Modules

| module     | contents                                                                 |
|------------|--------------------------------------------------------------------------|
| `api`      | statuses, refusals and answers of the HTTP interface                     |
| `config`   | the settings and what they have to satisfy                               |
| `crypto`   | HMAC, SHA-256, random bytes, the clock                                   |
| `device`   | login with a device code, as a state machine                             |
| `encoding` | Base64 and hexadecimal text                                              |
| `flows`    | tables of logins that have been started                                  |
| `json`     | JSON objects, one level at a time                                        |
| `jwt`      | JSON Web Tokens                                                          |
| `pages`    | the pages on which a login in the browser ends                           |
| `qr`       | QR codes                                                                 |
| `session`  | issuing and checking sessions                                            |
| `taptap`   | the Open API: regions, credentials, signed requests, replies             |
| `text`     | characters and strings                                                   |
| `url`      | URLs with a query string                                                 |
| `web`      | login in the browser, as a state machine                                 |

What needs the time or random bytes stands in a function that takes them as arguments and says
exactly what it returns (`profile_at`, `issue_session_at`, `open_web_flow` and the like); the function
that fetches them calls that one and says what holds whatever they are. Only when a token is checked
for its expiry the clock is read on the way, so that `me_at` leaves that one reading open. A login
that somebody is working on is absent from its slot in the table, so that nobody else can work on it
at the same time. Proof functions whose names begin with `law_` state what holds of the whole.

## Running

The program reads `TAPTAP_CN_CLIENT_ID`, `TAPTAP_GLOBAL_CLIENT_ID`, `SESSION_SECRET`,
`PUBLIC_BASE_URL`, `PUBLIC_BASE_PATH` and `BIND_ADDR` from the environment, and the front page from
`web/index.html`, `web/style.css` and `web/app.js` below the directory it is started in.
