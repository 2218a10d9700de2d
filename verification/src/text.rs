//! Localized text and the user-interface label catalogue.
//!
//! Two kinds of text appear in a published document:
//!
//! 1. Text from the feed — station names, headsigns, platform codes.
//!    It stays exactly as the feed supplies it.
//! 2. Text from the user interface — "Platform", "every 4 min
//!    approximately", "Departures". This module holds it.
//!
//! The catalogue carries English and Japanese. English is the default.
//! Japanese labels are a presentation choice; nothing in this module
//! infers Japanese railway concepts, such as up and down directions,
//! from GTFS data.

use vstd::prelude::*;

use crate::textbuf::{
    chars_of, decimal, lower_seq, owned, pad2, pad4, push_char, push_decimal, push_pad2,
    push_pad4, push_str, replace_all, replace_chars, string_of, to_lower_chars, trim, trim_white,
};
use crate::time::{civil, weekday_index, weekday_of_index, ServiceDate, Weekday};

verus! {

/// The language of the user-interface labels.
#[derive(Copy, Clone, Debug, PartialEq, Eq, Hash)]
pub enum Language {
    /// English. The default.
    En,
    /// Japanese.
    Ja,
}

impl Language {
    /// Get the IETF language tag, for the HTML `lang` attribute.
    pub fn tag(self) -> (t: &'static str)
        ensures
            t@ == language_tag(self),
    {
        match self {
            Language::En => "en",
            Language::Ja => "ja",
        }
    }
}

/// The IETF tag of a language.
pub open spec fn language_tag(l: Language) -> Seq<char> {
    match l {
        Language::En => "en"@,
        Language::Ja => "ja"@,
    }
}

/// The language that a configuration word names, after trimming and
/// ASCII lower-casing.
pub open spec fn language_word(w: Seq<char>) -> Option<Language> {
    if w == "en"@ || w == "english"@ {
        Some(Language::En)
    } else if w == "ja"@ || w == "jp"@ || w == "japanese"@ {
        Some(Language::Ja)
    } else {
        None
    }
}

/// The message for a word that names no supported language.
pub open spec fn language_error(w: Seq<char>) -> Seq<char> {
    seq!['"'] + w + "\" is not a supported language; use \"en\" or \"ja\""@
}

/// Read a language from a configuration string.
///
/// The comparison ignores surrounding white space and ASCII case.
pub fn parse_language(s: &str) -> (r: Result<Language, String>)
    ensures
        ({
            let w = lower_seq(trim_white(s@));
            match r {
                Ok(l) => language_word(w) == Some(l),
                Err(e) => language_word(w) is None && e@ == language_error(w),
            }
        }),
{
    let v = chars_of(s);
    let t = trim(&v);
    let tv = chars_of(t.as_str());
    let lower = to_lower_chars(&tv);
    let w = string_of(&lower);
    let ws = w.as_str();
    if crate::textbuf::str_eq(ws, "en") || crate::textbuf::str_eq(ws, "english") {
        Ok(Language::En)
    } else if crate::textbuf::str_eq(ws, "ja") || crate::textbuf::str_eq(ws, "jp")
        || crate::textbuf::str_eq(ws, "japanese") {
        Ok(Language::Ja)
    } else {
        let mut e = String::new();
        push_char(&mut e, '"');
        push_str(&mut e, ws);
        push_str(&mut e, "\" is not a supported language; use \"en\" or \"ja\"");
        proof {
            assert(e@ =~= language_error(w@));
        }
        Err(e)
    }
}

/// A short text in the supported languages.
///
/// The English form is required, because it is the fallback.
#[derive(Clone, Debug, PartialEq, Eq)]
pub struct LocalizedText {
    /// The English form.
    pub en: String,
    /// The Japanese form, when one is configured.
    pub ja: Option<String>,
}

/// The form of a text for a language, falling back to English.
pub open spec fn localized_get(t: LocalizedText, language: Language) -> Seq<char> {
    match language {
        Language::Ja => match t.ja {
            Some(j) => j@,
            None => t.en@,
        },
        Language::En => t.en@,
    }
}

/// The placeholder `{name}`.
pub open spec fn placeholder(name: Seq<char>) -> Seq<char> {
    seq!['{'] + name + seq!['}']
}

/// A text with the placeholders of the first `n` replacements filled
/// in, in order.
pub open spec fn fill_text(t: Seq<char>, reps: Seq<(&str, &str)>) -> Seq<char>
    decreases reps.len(),
{
    if reps.len() == 0 {
        t
    } else {
        replace_all(fill_text(t, reps.drop_last()), placeholder(reps.last().0@), reps.last().1@)
    }
}

fn fill_one(text: &str, replacements: &[(&str, &str)]) -> (res: String)
    ensures
        res@ == fill_text(text@, replacements@),
{
    let mut out = owned(text);
    let mut i: usize = 0;
    while i < replacements.len()
        invariant
            i <= replacements@.len(),
            out@ == fill_text(text@, replacements@.take(i as int)),
        decreases replacements@.len() - i,
    {
        let (name, value) = replacements[i];
        let mut p: Vec<char> = Vec::new();
        p.push('{');
        let nv = chars_of(name);
        let mut k: usize = 0;
        while k < nv.len()
            invariant
                k <= nv@.len(),
                p@ == seq!['{'] + nv@.take(k as int),
            decreases nv@.len() - k,
        {
            proof {
                assert(seq!['{'] + nv@.take(k + 1) =~= (seq!['{'] + nv@.take(k as int)).push(nv@[k as int]));
            }
            p.push(nv[k]);
            k = k + 1;
        }
        p.push('}');
        proof {
            assert(nv@.take(nv@.len() as int) =~= nv@);
            assert(p@ =~= placeholder(name@));
            assert(replacements@.take(i + 1).drop_last() =~= replacements@.take(i as int));
            assert(replacements@.take(i + 1).last() == replacements@[i as int]);
        }
        let cur = chars_of(out.as_str());
        out = replace_chars(&cur, &p, value);
        i = i + 1;
    }
    proof {
        assert(replacements@.take(replacements@.len() as int) =~= replacements@);
    }
    out
}

impl LocalizedText {
    /// Make a text with an English form only.
    pub fn en(text: &str) -> (t: LocalizedText)
        ensures
            t.en@ == text@,
            t.ja is None,
    {
        LocalizedText { en: owned(text), ja: None }
    }

    /// Make a text with both forms.
    pub fn both(en: &str, ja: &str) -> (t: LocalizedText)
        ensures
            t.en@ == en@,
            t.ja matches Some(j) && j@ == ja@,
    {
        LocalizedText { en: owned(en), ja: Some(owned(ja)) }
    }

    /// Get the form for a language, falling back to English.
    pub fn get(&self, language: Language) -> (s: &str)
        ensures
            s@ == localized_get(*self, language),
    {
        match language {
            Language::Ja => match &self.ja {
                Some(j) => j.as_str(),
                None => self.en.as_str(),
            },
            Language::En => self.en.as_str(),
        }
    }

    /// Replace `{name}` placeholders in both forms.
    pub fn fill(&self, replacements: &[(&str, &str)]) -> (t: LocalizedText)
        ensures
            t.en@ == fill_text(self.en@, replacements@),
            match self.ja {
                Some(j) => t.ja matches Some(tj) && tj@ == fill_text(j@, replacements@),
                None => t.ja is None,
            },
    {
        let en = fill_one(self.en.as_str(), replacements);
        let ja = match &self.ja {
            Some(j) => Some(fill_one(j.as_str(), replacements)),
            None => None,
        };
        LocalizedText { en, ja }
    }
}

/// The user-interface labels of one language.
///
/// The struct holds every string that the renderers print outside of
/// the feed data, so a translation is one value away.
#[derive(Clone, Debug)]
pub struct Labels {
    /// The language of these labels.
    pub language: Language,
    /// "Departure timetable".
    pub departures: &'static str,
    /// "Service date".
    pub service_date: &'static str,
    /// "Platform".
    pub platform: &'static str,
    /// "Direction".
    pub direction: &'static str,
    /// "Hour".
    pub hour: &'static str,
    /// "Minutes".
    pub minutes: &'static str,
    /// "Legend".
    pub legend: &'static str,
    /// "Source".
    pub source: &'static str,
    /// "Feed fingerprint".
    pub feed_fingerprint: &'static str,
    /// "Warnings".
    pub warnings: &'static str,
    /// "Train diagram".
    pub diagram: &'static str,
    /// "Line".
    pub line: &'static str,
    /// "Destination".
    pub destination: &'static str,
    /// "Train".
    pub train: &'static str,
    /// "Arrival".
    pub arrival: &'static str,
    /// "Departure".
    pub departure: &'static str,
    /// "Train calls".
    pub calls: &'static str,
    /// "Selected train".
    pub selected_run: &'static str,
    /// "Exact".
    pub exact: &'static str,
    /// "Approximate".
    pub approximate: &'static str,
    /// "Runs".
    pub runs: &'static str,
    /// "Time".
    pub time: &'static str,
    /// "Stations".
    pub stations: &'static str,
    /// "Filters".
    pub filters: &'static str,
    /// "Reset view".
    pub reset: &'static str,
    /// "Print".
    pub print: &'static str,
    /// "Download SVG".
    pub download_svg: &'static str,
    /// "Zoom in".
    pub zoom_in: &'static str,
    /// "Zoom out".
    pub zoom_out: &'static str,
    /// "Show approximate service".
    pub show_approximate: &'static str,
    /// "Monochrome".
    pub monochrome: &'static str,
    /// "This page needs no network access."
    pub offline_note: &'static str,
    /// "No departures".
    pub no_departures: &'static str,
    /// "generated from a cached feed".
    pub stale_feed: &'static str,
    /// The legend entry for an approximate time.
    pub legend_approximate: &'static str,
    /// The legend entry for a computed time.
    pub legend_interpolated: &'static str,
    /// The legend entry for the first departure of the service day.
    pub legend_first: &'static str,
    /// The legend entry for the last departure of the service day.
    pub legend_last: &'static str,
    /// The legend entry for a departure after midnight.
    pub legend_past_midnight: &'static str,
    /// The legend entry for a platform label.
    pub legend_platform: &'static str,
    /// The legend entry for a train that passes without stopping.
    pub legend_pass_through: &'static str,
    /// The legend entry for the dwell segment of a diagram path.
    pub legend_dwell: &'static str,
    /// The legend entry for the date boundary line.
    pub legend_day_boundary: &'static str,
}

/// The English labels.
pub open spec fn labels_en() -> Labels {
    Labels {
        language: Language::En,
        departures: "Departure timetable",
        service_date: "Service date",
        platform: "Platform",
        direction: "Direction",
        hour: "Hour",
        minutes: "Minutes",
        legend: "Legend",
        source: "Source",
        feed_fingerprint: "Feed fingerprint",
        warnings: "Warnings",
        diagram: "Train diagram",
        line: "Line",
        destination: "Destination",
        train: "Train",
        arrival: "Arrival",
        departure: "Departure",
        calls: "Train calls",
        selected_run: "Selected train",
        exact: "Exact",
        approximate: "Approximate",
        runs: "Trains",
        time: "Time",
        stations: "Stations",
        filters: "Filters",
        reset: "Reset view",
        print: "Print",
        download_svg: "Download SVG",
        zoom_in: "Zoom in",
        zoom_out: "Zoom out",
        show_approximate: "Show approximate service",
        monochrome: "Monochrome",
        offline_note: "This page needs no network access.",
        no_departures: "No departures on this service day.",
        stale_feed: "generated from a cached feed",
        legend_approximate: "approximate time from a headway, not a scheduled departure",
        legend_interpolated: "time computed between two scheduled times",
        legend_first: "first departure of the service day",
        legend_last: "last departure of the service day",
        legend_past_midnight: "departs after midnight, on the next calendar day",
        legend_platform: "platform",
        legend_pass_through: "the train passes without serving the station",
        legend_dwell: "the train stands at the station",
        legend_day_boundary: "midnight of the service day",
    }
}

/// The Japanese labels.
pub open spec fn labels_ja() -> Labels {
    Labels {
        language: Language::Ja,
        departures: "発車時刻表",
        service_date: "運転日",
        platform: "のりば",
        direction: "方向",
        hour: "時",
        minutes: "分",
        legend: "凡例",
        source: "出典",
        feed_fingerprint: "データ指紋",
        warnings: "注意",
        diagram: "列車ダイヤグラム",
        line: "路線",
        destination: "行先",
        train: "列車",
        arrival: "着",
        departure: "発",
        calls: "停車時刻",
        selected_run: "選択中の列車",
        exact: "確定",
        approximate: "概算",
        runs: "列車",
        time: "時刻",
        stations: "駅",
        filters: "絞り込み",
        reset: "表示を戻す",
        print: "印刷",
        download_svg: "SVG をダウンロード",
        zoom_in: "拡大",
        zoom_out: "縮小",
        show_approximate: "概算の運転を表示",
        monochrome: "白黒",
        offline_note: "このページは通信を必要としません。",
        no_departures: "この運転日に発車はありません。",
        stale_feed: "保存済みデータから作成",
        legend_approximate: "運転間隔からの概算時刻。時刻表上の発車時刻ではありません",
        legend_interpolated: "前後の時刻から補間した時刻",
        legend_first: "始発",
        legend_last: "終発",
        legend_past_midnight: "翌日 0 時以降の発車",
        legend_platform: "のりば",
        legend_pass_through: "通過",
        legend_dwell: "停車中",
        legend_day_boundary: "運転日の 24 時",
    }
}

/// The labels of a language.
pub open spec fn labels_of(language: Language) -> Labels {
    match language {
        Language::En => labels_en(),
        Language::Ja => labels_ja(),
    }
}

impl Labels {
    /// Get the labels of a language.
    pub fn for_language(language: Language) -> (l: Labels)
        ensures
            l == labels_of(language),
    {
        match language {
            Language::En => Labels {
                language: Language::En,
                departures: "Departure timetable",
                service_date: "Service date",
                platform: "Platform",
                direction: "Direction",
                hour: "Hour",
                minutes: "Minutes",
                legend: "Legend",
                source: "Source",
                feed_fingerprint: "Feed fingerprint",
                warnings: "Warnings",
                diagram: "Train diagram",
                line: "Line",
                destination: "Destination",
                train: "Train",
                arrival: "Arrival",
                departure: "Departure",
                calls: "Train calls",
                selected_run: "Selected train",
                exact: "Exact",
                approximate: "Approximate",
                runs: "Trains",
                time: "Time",
                stations: "Stations",
                filters: "Filters",
                reset: "Reset view",
                print: "Print",
                download_svg: "Download SVG",
                zoom_in: "Zoom in",
                zoom_out: "Zoom out",
                show_approximate: "Show approximate service",
                monochrome: "Monochrome",
                offline_note: "This page needs no network access.",
                no_departures: "No departures on this service day.",
                stale_feed: "generated from a cached feed",
                legend_approximate: "approximate time from a headway, not a scheduled departure",
                legend_interpolated: "time computed between two scheduled times",
                legend_first: "first departure of the service day",
                legend_last: "last departure of the service day",
                legend_past_midnight: "departs after midnight, on the next calendar day",
                legend_platform: "platform",
                legend_pass_through: "the train passes without serving the station",
                legend_dwell: "the train stands at the station",
                legend_day_boundary: "midnight of the service day",
            },
            Language::Ja => Labels {
                language: Language::Ja,
                departures: "発車時刻表",
                service_date: "運転日",
                platform: "のりば",
                direction: "方向",
                hour: "時",
                minutes: "分",
                legend: "凡例",
                source: "出典",
                feed_fingerprint: "データ指紋",
                warnings: "注意",
                diagram: "列車ダイヤグラム",
                line: "路線",
                destination: "行先",
                train: "列車",
                arrival: "着",
                departure: "発",
                calls: "停車時刻",
                selected_run: "選択中の列車",
                exact: "確定",
                approximate: "概算",
                runs: "列車",
                time: "時刻",
                stations: "駅",
                filters: "絞り込み",
                reset: "表示を戻す",
                print: "印刷",
                download_svg: "SVG をダウンロード",
                zoom_in: "拡大",
                zoom_out: "縮小",
                show_approximate: "概算の運転を表示",
                monochrome: "白黒",
                offline_note: "このページは通信を必要としません。",
                no_departures: "この運転日に発車はありません。",
                stale_feed: "保存済みデータから作成",
                legend_approximate: "運転間隔からの概算時刻。時刻表上の発車時刻ではありません",
                legend_interpolated: "前後の時刻から補間した時刻",
                legend_first: "始発",
                legend_last: "終発",
                legend_past_midnight: "翌日 0 時以降の発車",
                legend_platform: "のりば",
                legend_pass_through: "通過",
                legend_dwell: "停車中",
                legend_day_boundary: "運転日の 24 時",
            },
        }
    }
}

} // verus!

verus! {

/// The heading "for <destination>".
pub open spec fn towards_text(language: Language, destination: Seq<char>) -> Seq<char> {
    match language {
        Language::En => "For "@ + destination,
        Language::Ja => destination + "方面"@,
    }
}

/// The neutral heading of a GTFS `direction_id`.
pub open spec fn direction_text(language: Language, direction: Option<u8>) -> Seq<char> {
    match (language, direction) {
        (Language::En, Some(v)) => "Direction "@ + decimal(v as nat),
        (Language::En, None) => "Direction not stated"@,
        (Language::Ja, Some(v)) => "方向 "@ + decimal(v as nat),
        (Language::Ja, None) => "方向の指定なし"@,
    }
}

/// The text of a headway band.
pub open spec fn headway_text(
    language: Language,
    start: Seq<char>,
    end: Seq<char>,
    minutes: nat,
) -> Seq<char> {
    match language {
        Language::En => start + seq!['\u{2013}'] + end + "  every "@ + decimal(minutes)
            + " min approximately"@,
        Language::Ja => start + seq!['\u{2013}'] + end + "  約"@ + decimal(minutes) + "分間隔"@,
    }
}

/// The platform heading.
pub open spec fn platform_text(language: Language, code: Seq<char>) -> Seq<char> {
    match language {
        Language::En => "Platform "@ + code,
        Language::Ja => code + "番のりば"@,
    }
}

/// The short weekday name.
pub open spec fn weekday_text(language: Language, w: Weekday) -> Seq<char> {
    match (language, w) {
        (Language::En, Weekday::Monday) => "Mon"@,
        (Language::En, Weekday::Tuesday) => "Tue"@,
        (Language::En, Weekday::Wednesday) => "Wed"@,
        (Language::En, Weekday::Thursday) => "Thu"@,
        (Language::En, Weekday::Friday) => "Fri"@,
        (Language::En, Weekday::Saturday) => "Sat"@,
        (Language::En, Weekday::Sunday) => "Sun"@,
        (Language::Ja, Weekday::Monday) => "月"@,
        (Language::Ja, Weekday::Tuesday) => "火"@,
        (Language::Ja, Weekday::Wednesday) => "水"@,
        (Language::Ja, Weekday::Thursday) => "木"@,
        (Language::Ja, Weekday::Friday) => "金"@,
        (Language::Ja, Weekday::Saturday) => "土"@,
        (Language::Ja, Weekday::Sunday) => "日"@,
    }
}

/// The heading of a service date, `YYYY-MM-DD (Wkd)`.
pub open spec fn service_date_heading(language: Language, days: int) -> Seq<char> {
    let (y, m, d) = civil(days);
    pad4(y as nat) + seq!['-'] + pad2(m as nat) + seq!['-'] + pad2(d as nat) + " ("@
        + weekday_text(language, weekday_of_index(weekday_index(days))) + seq![')']
}

fn weekday_name(language: Language, w: Weekday) -> (s: &'static str)
    ensures
        s@ == weekday_text(language, w),
{
    match (language, w) {
        (Language::En, Weekday::Monday) => "Mon",
        (Language::En, Weekday::Tuesday) => "Tue",
        (Language::En, Weekday::Wednesday) => "Wed",
        (Language::En, Weekday::Thursday) => "Thu",
        (Language::En, Weekday::Friday) => "Fri",
        (Language::En, Weekday::Saturday) => "Sat",
        (Language::En, Weekday::Sunday) => "Sun",
        (Language::Ja, Weekday::Monday) => "月",
        (Language::Ja, Weekday::Tuesday) => "火",
        (Language::Ja, Weekday::Wednesday) => "水",
        (Language::Ja, Weekday::Thursday) => "木",
        (Language::Ja, Weekday::Friday) => "金",
        (Language::Ja, Weekday::Saturday) => "土",
        (Language::Ja, Weekday::Sunday) => "日",
    }
}

impl Labels {
    /// Build a "for <destination>" heading.
    pub fn towards(&self, destination: &str) -> (s: String)
        ensures
            s@ == towards_text(self.language, destination@),
    {
        let mut out = String::new();
        match self.language {
            Language::En => {
                push_str(&mut out, "For ");
                push_str(&mut out, destination);
            },
            Language::Ja => {
                push_str(&mut out, destination);
                push_str(&mut out, "方面");
            },
        }
        proof {
            assert(out@ =~= towards_text(self.language, destination@));
        }
        out
    }

    /// Build a neutral direction heading for a GTFS `direction_id`.
    ///
    /// GTFS gives no meaning to `0` and `1`, so the label states the
    /// number and nothing more.
    pub fn direction_number(&self, direction: Option<u8>) -> (s: String)
        ensures
            s@ == direction_text(self.language, direction),
    {
        let mut out = String::new();
        match (self.language, direction) {
            (Language::En, Some(v)) => {
                push_str(&mut out, "Direction ");
                push_decimal(&mut out, v as u64);
            },
            (Language::En, None) => push_str(&mut out, "Direction not stated"),
            (Language::Ja, Some(v)) => {
                push_str(&mut out, "方向 ");
                push_decimal(&mut out, v as u64);
            },
            (Language::Ja, None) => push_str(&mut out, "方向の指定なし"),
        }
        proof {
            assert(out@ =~= direction_text(self.language, direction));
        }
        out
    }

    /// Build the text of a headway band, for example
    /// `06:30–09:00  every 4 min approximately`.
    pub fn headway_band(&self, start: &str, end: &str, minutes: u32) -> (s: String)
        ensures
            s@ == headway_text(self.language, start@, end@, minutes as nat),
    {
        let mut out = String::new();
        push_str(&mut out, start);
        push_char(&mut out, '\u{2013}');
        push_str(&mut out, end);
        match self.language {
            Language::En => {
                push_str(&mut out, "  every ");
                push_decimal(&mut out, minutes as u64);
                push_str(&mut out, " min approximately");
            },
            Language::Ja => {
                push_str(&mut out, "  約");
                push_decimal(&mut out, minutes as u64);
                push_str(&mut out, "分間隔");
            },
        }
        proof {
            assert(out@ =~= headway_text(self.language, start@, end@, minutes as nat));
        }
        out
    }

    /// Build the platform heading, for example `Platform 1`.
    pub fn platform_label(&self, code: &str) -> (s: String)
        ensures
            s@ == platform_text(self.language, code@),
    {
        let mut out = String::new();
        match self.language {
            Language::En => {
                push_str(&mut out, "Platform ");
                push_str(&mut out, code);
            },
            Language::Ja => {
                push_str(&mut out, code);
                push_str(&mut out, "番のりば");
            },
        }
        proof {
            assert(out@ =~= platform_text(self.language, code@));
        }
        out
    }

    /// Format a service date for a heading, for example
    /// `2026-08-10 (Mon)`.
    pub fn service_date_text(&self, date: ServiceDate) -> (s: String)
        ensures
            s@ == service_date_heading(self.language, date.day_count()),
    {
        let y = date.year();
        let m = date.month();
        let d = date.day();
        let _ = date.days();
        proof {
            crate::time::lemma_civil_nonnegative(date.day_count());
        }
        let w = date.weekday();
        let mut out = String::new();
        push_pad4(&mut out, y as u64);
        push_char(&mut out, '-');
        push_pad2(&mut out, m as u64);
        push_char(&mut out, '-');
        push_pad2(&mut out, d as u64);
        push_str(&mut out, " (");
        push_str(&mut out, weekday_name(self.language, w));
        push_char(&mut out, ')');
        proof {
            assert(out@ =~= service_date_heading(self.language, date.day_count()));
        }
        out
    }
}

} // verus!
