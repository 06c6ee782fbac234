//! What the administration interface reports.

use vstd::prelude::*;
use vstd::string::*;

use crate::engine::EngineStats;
use crate::json;
use crate::json::{Json, Members};
use crate::text;

verus! {

/// The figures of an engine.
pub open spec fn metrics_json(s: EngineStats) -> json::JsonView {
    json::JsonView::Object(
        seq![
            ("active_sessions"@, json::int_json(s.active_sessions as int)),
            ("agents"@, json::texts_json(text::texts(s.agents@))),
            ("platforms"@, json::texts_json(text::texts(s.platforms@))),
            ("default_agent"@, json::JsonView::Str(s.default_agent@)),
            ("uptime_s"@, json::int_json(s.uptime_s as int)),
            ("max_sessions"@, json::int_json(s.max_sessions as int)),
        ],
    )
}

/// The reply of `GET /api/metrics`.
pub fn metrics(s: &EngineStats) -> (r: Json)
    ensures
        r@ == metrics_json(*s),
{
    let m: Members = Members::new().with(
        "active_sessions",
        json::count_json(s.active_sessions as u64),
    ).with("agents", json::strings_json(s.agents.as_slice())).with(
        "platforms",
        json::strings_json(s.platforms.as_slice()),
    ).with_str("default_agent", s.default_agent.as_str()).with(
        "uptime_s",
        json::count_json(s.uptime_s),
    ).with("max_sessions", json::count_json(s.max_sessions as u64));
    assert(m@ =~= metrics_json(*s)->Object_0);
    m.object()
}

/// The reply of `GET /api/sessions`: the keys of the live sessions.
pub fn sessions(s: &EngineStats) -> (r: Json)
    ensures
        r@ == json::texts_json(text::texts(s.sessions@)),
{
    json::strings_json(s.sessions.as_slice())
}

/// The reply of `GET /healthz`.
pub fn healthz() -> (r: &'static str)
    ensures
        r@ == "ok"@,
{
    "ok"
}

/// Each number and each list is reported under its own name.
pub proof fn metrics_are_reported_by_name(s: EngineStats)
    ensures
        metrics_json(s) == json::JsonView::Object(
            seq![
                (
                    "active_sessions"@,
                    json::JsonView::Number(text::integer(s.active_sessions as int)),
                ),
                ("agents"@, json::texts_json(text::texts(s.agents@))),
                ("platforms"@, json::texts_json(text::texts(s.platforms@))),
                ("default_agent"@, json::JsonView::Str(s.default_agent@)),
                ("uptime_s"@, json::JsonView::Number(text::integer(s.uptime_s as int))),
                ("max_sessions"@, json::JsonView::Number(text::integer(s.max_sessions as int))),
            ],
        ),
{
}

} // verus!
