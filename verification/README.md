# Krill File Drop

Pair with a friend once through a ticket; after that, click their card to drop a file.

The project has two parts.

- `src/` is the library: everything that the file drop decides. Its behaviour is stated in
  contracts and proved with [Verus](https://github.com/verus-lang/verus).
- `app/` is the desktop application around it: the iroh endpoint, the upload server, the
  disk, and the commands of the user interface. It performs what the library decides.

## The library

| Module     | What it holds                                                            |
|------------|--------------------------------------------------------------------------|
| `ticket`   | endpoint addresses as text to paste, and node ids                        |
| `frame`    | length-prefixed frames                                                   |
| `card`     | contact cards and the user's own identity                                |
| `contacts` | the list of saved contacts                                               |
| `network`  | the state of a node: card, session, offers, contacts; presence checks    |
| `transfer` | a file on its way out or in: chunks, progress, reports                   |
| `resume`   | files that broke off, and answers to offers that take them up            |
| `names`    | file names: where a file lands without taking the place of another       |
| `upload`   | uploads from a phone: the page's address as a QR code, and where they go |
| `received` | the list of files that have arrived                                      |
| `paths`    | directories, `file://` URIs, helper programs                             |
| `key`      | the node's secret key                                                    |
| `text`     | trimming, letter case, digits                                            |

Laws that relate several functions are public proof functions next to the functions they
speak of, such as `never_lands_on_another_file` in `names`,
`reading_gives_back_what_was_written` in `frame`, `a_pasted_ticket_leads_back` in `ticket`
and `every_state_keeps_its_identity` in `network`.

## What is taken on trust

The library calls a few functions of other crates and of the standard library. Each such
call stands behind one item whose doc comment says what is believed of it: base 32 from
`data-encoding`, the byte form of addresses from `postcard`, keys from `iroh`, QR codes
from `qrcode`, and trimming, letter case and `String::push` from `std`.
