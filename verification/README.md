# dc34-vault

The vault app of the S-CAM badge: a password, TOTP and passkey store, a collection of
scanned QR codes, a photo store, and the screens and menus that browse them.

`src/` is the library, written in Verus and verified: the record formats and their
round trips, the `otpauth://` parser, the URL checks, the bookmark keys and bodies, the
photo store's keys and export formats, the key handler's state machine, the menu tree, and
the arithmetic of the screen layout. Each public function states what it returns in its
`ensures`; the `lemma_*` proof functions state the laws that span several functions.

`app/` is the program around it: the message loop, the PDDB reads and writes, the
graphics calls and the USB HID and serial output. It hands the library plain values and
carries out what the library decides.

`tests/` runs the library on concrete values.
