# housing_dashboard

A dashboard for the residents of a housing company: the resident list by floor, the coming
public-transport departures near the building, the weather forecast and notices.

- `src/` is the library, verified with Verus:
  - `residents.rs`: the floors of the building, the floor of each apartment, the resident
    list grouped by floor, and the laws of that layout;
  - `names.rs`: the random resident names (through `rand`);
  - `transportation.rs`: the routing query and its JSON body (through `serde_json`), the
    "minutes from now" texts, and the flattening and stable sorting of departures;
  - `clock.rs`: the readings of the clock (through `chrono`);
  - `text.rs`: decimal notation of integers;
  - `news.rs`, `templates.rs`: the notices and the housing company shown.
- `app/` is the web server around it (axum, tokio, reqwest, askama): configuration from the
  environment, HTTP requests, JSON decoding with serde, and the weather data.
- `tests/` runs the library on concrete values.
