//! Project constants: cloud-drive kinds, search source kinds, and the
//! fixed word lists used by the pages.
use vstd::prelude::*;
use crate::text::{chars_of, contains_exec, matches_at_exec, seq_contains, seq_starts_with, spec_to_lowercase, str_eq, to_lowercase};

verus! {

broadcast use vstd::string::group_string_axioms;

/// Kinds of cloud drive (and of raw download link) that the service knows.
#[derive(Debug, Clone, Copy, PartialEq, Eq, Structural, Hash)]
pub enum DiskType {
    Baidu,
    Quark,
    Aliyun,
    Tianyi,
    Xunlei,
    N115,
    Uc,
    N123,
    Mobile,
    Magnet,
    Ed2k,
    Others,
}

/// Identifier string of a drive kind (such as `"baidu"`).
pub open spec fn disk_type_name(d: DiskType) -> Seq<char> {
    match d {
        DiskType::Baidu => "baidu"@,
        DiskType::Quark => "quark"@,
        DiskType::Aliyun => "aliyun"@,
        DiskType::Tianyi => "tianyi"@,
        DiskType::Xunlei => "xunlei"@,
        DiskType::N115 => "115"@,
        DiskType::Uc => "uc"@,
        DiskType::N123 => "123"@,
        DiskType::Mobile => "mobile"@,
        DiskType::Magnet => "magnet"@,
        DiskType::Ed2k => "ed2k"@,
        DiskType::Others => "others"@,
    }
}

/// Chinese display name of a drive kind.
pub open spec fn disk_type_friendly(d: DiskType) -> Seq<char> {
    match d {
        DiskType::Baidu => "百度网盘"@,
        DiskType::Quark => "夸克网盘"@,
        DiskType::Aliyun => "阿里云盘"@,
        DiskType::Tianyi => "天翼云盘"@,
        DiskType::Xunlei => "迅雷云盘"@,
        DiskType::N115 => "115网盘"@,
        DiskType::Uc => "UC网盘"@,
        DiskType::N123 => "123云盘"@,
        DiskType::Mobile => "移动云盘"@,
        DiskType::Magnet => "磁力链接"@,
        DiskType::Ed2k => "电驴链接"@,
        DiskType::Others => "其他"@,
    }
}

/// The drive kind named by an identifier; unknown identifiers give `Others`.
pub open spec fn disk_type_from_name(s: Seq<char>) -> DiskType {
    if s == "baidu"@ {
        DiskType::Baidu
    } else if s == "quark"@ {
        DiskType::Quark
    } else if s == "aliyun"@ {
        DiskType::Aliyun
    } else if s == "tianyi"@ {
        DiskType::Tianyi
    } else if s == "xunlei"@ {
        DiskType::Xunlei
    } else if s == "115"@ {
        DiskType::N115
    } else if s == "uc"@ {
        DiskType::Uc
    } else if s == "123"@ {
        DiskType::N123
    } else if s == "mobile"@ {
        DiskType::Mobile
    } else if s == "magnet"@ {
        DiskType::Magnet
    } else if s == "ed2k"@ {
        DiskType::Ed2k
    } else {
        DiskType::Others
    }
}

/// The drive kind of an already lower-cased URL, by its scheme and host fragments.
pub open spec fn disk_type_of_lower(l: Seq<char>) -> DiskType {
    if seq_starts_with(l, "magnet:"@) {
        DiskType::Magnet
    } else if seq_starts_with(l, "ed2k://"@) {
        DiskType::Ed2k
    } else if seq_contains(l, "pan.baidu.com"@) {
        DiskType::Baidu
    } else if seq_contains(l, "pan.quark.cn"@) {
        DiskType::Quark
    } else if seq_contains(l, "alipan.com"@) || seq_contains(l, "aliyundrive.com"@) {
        DiskType::Aliyun
    } else if seq_contains(l, "cloud.189.cn"@) {
        DiskType::Tianyi
    } else if seq_contains(l, "drive.uc.cn"@) {
        DiskType::Uc
    } else if seq_contains(l, "yun.139.com"@) || seq_contains(l, "caiyun.139.com"@) {
        DiskType::Mobile
    } else if seq_contains(l, "115.com"@) || seq_contains(l, "115cdn.com"@) || seq_contains(
        l,
        "anxia.com"@,
    ) {
        DiskType::N115
    } else if seq_contains(l, "pan.xunlei.com"@) {
        DiskType::Xunlei
    } else if seq_contains(l, "123pan.com"@) || seq_contains(l, "123pan.cn"@) || seq_contains(
        l,
        "123684.com"@,
    ) {
        DiskType::N123
    } else {
        DiskType::Others
    }
}

/// The drive kinds other than `Others`, in display order.
pub open spec fn all_disk_types() -> Seq<DiskType> {
    seq![
        DiskType::Baidu,
        DiskType::Quark,
        DiskType::Aliyun,
        DiskType::Tianyi,
        DiskType::Xunlei,
        DiskType::N115,
        DiskType::Uc,
        DiskType::N123,
        DiskType::Mobile,
        DiskType::Magnet,
        DiskType::Ed2k,
    ]
}

impl DiskType {
    /// Identifier (such as `"baidu"`).
    pub fn as_str(self) -> (r: &'static str)
        ensures
            r@ == disk_type_name(self),
    {
        match self {
            DiskType::Baidu => "baidu",
            DiskType::Quark => "quark",
            DiskType::Aliyun => "aliyun",
            DiskType::Tianyi => "tianyi",
            DiskType::Xunlei => "xunlei",
            DiskType::N115 => "115",
            DiskType::Uc => "uc",
            DiskType::N123 => "123",
            DiskType::Mobile => "mobile",
            DiskType::Magnet => "magnet",
            DiskType::Ed2k => "ed2k",
            DiskType::Others => "others",
        }
    }

    /// Chinese display name.
    pub fn friendly_name(self) -> (r: &'static str)
        ensures
            r@ == disk_type_friendly(self),
    {
        match self {
            DiskType::Baidu => "百度网盘",
            DiskType::Quark => "夸克网盘",
            DiskType::Aliyun => "阿里云盘",
            DiskType::Tianyi => "天翼云盘",
            DiskType::Xunlei => "迅雷云盘",
            DiskType::N115 => "115网盘",
            DiskType::Uc => "UC网盘",
            DiskType::N123 => "123云盘",
            DiskType::Mobile => "移动云盘",
            DiskType::Magnet => "磁力链接",
            DiskType::Ed2k => "电驴链接",
            DiskType::Others => "其他",
        }
    }

    /// Parses an identifier; unknown identifiers give `Others`.
    pub fn from_str(s: &str) -> (r: DiskType)
        ensures
            r == disk_type_from_name(s@),
    {
        if str_eq(s, "baidu") {
            DiskType::Baidu
        } else if str_eq(s, "quark") {
            DiskType::Quark
        } else if str_eq(s, "aliyun") {
            DiskType::Aliyun
        } else if str_eq(s, "tianyi") {
            DiskType::Tianyi
        } else if str_eq(s, "xunlei") {
            DiskType::Xunlei
        } else if str_eq(s, "115") {
            DiskType::N115
        } else if str_eq(s, "uc") {
            DiskType::Uc
        } else if str_eq(s, "123") {
            DiskType::N123
        } else if str_eq(s, "mobile") {
            DiskType::Mobile
        } else if str_eq(s, "magnet") {
            DiskType::Magnet
        } else if str_eq(s, "ed2k") {
            DiskType::Ed2k
        } else {
            DiskType::Others
        }
    }

    /// Recognizes the drive kind of a URL that is already in lower case.
    pub fn from_lowercase_url(lower: &str) -> (r: DiskType)
        ensures
            r == disk_type_of_lower(lower@),
    {
        let l = chars_of(lower);
        let l = l.as_slice();
        let has = |n: &str| -> (b: bool)
            ensures
                b == seq_contains(l@, n@),
            {
                let nv = chars_of(n);
                contains_exec(l, nv.as_slice())
            };
        let starts = |n: &str| -> (b: bool)
            ensures
                b == seq_starts_with(l@, n@),
            {
                let nv = chars_of(n);
                matches_at_exec(l, nv.as_slice(), 0)
            };
        if starts("magnet:") {
            DiskType::Magnet
        } else if starts("ed2k://") {
            DiskType::Ed2k
        } else if has("pan.baidu.com") {
            DiskType::Baidu
        } else if has("pan.quark.cn") {
            DiskType::Quark
        } else if has("alipan.com") || has("aliyundrive.com") {
            DiskType::Aliyun
        } else if has("cloud.189.cn") {
            DiskType::Tianyi
        } else if has("drive.uc.cn") {
            DiskType::Uc
        } else if has("yun.139.com") || has("caiyun.139.com") {
            DiskType::Mobile
        } else if has("115.com") || has("115cdn.com") || has("anxia.com") {
            DiskType::N115
        } else if has("pan.xunlei.com") {
            DiskType::Xunlei
        } else if has("123pan.com") || has("123pan.cn") || has("123684.com") {
            DiskType::N123
        } else {
            DiskType::Others
        }
    }

    /// Recognizes the drive kind of a URL: the URL is lower-cased, then its
    /// scheme and host fragments decide.
    pub fn from_url(url: &str) -> (r: DiskType)
        ensures
            r == disk_type_of_lower(spec_to_lowercase(url@)),
    {
        let lower = to_lowercase(url);
        DiskType::from_lowercase_url(lower.as_str())
    }

    /// All drive kinds except `Others`.
    pub fn all() -> (r: Vec<DiskType>)
        ensures
            r@ == all_disk_types(),
    {
        let r = vec![
            DiskType::Baidu,
            DiskType::Quark,
            DiskType::Aliyun,
            DiskType::Tianyi,
            DiskType::Xunlei,
            DiskType::N115,
            DiskType::Uc,
            DiskType::N123,
            DiskType::Mobile,
            DiskType::Magnet,
            DiskType::Ed2k,
        ];
        assert(r@ =~= all_disk_types());
        r
    }

    /// The order in which drive kinds are displayed.
    pub fn display_order() -> (r: Vec<DiskType>)
        ensures
            r@ == all_disk_types(),
    {
        DiskType::all()
    }
}

/// Where a search looks: both sources, Telegram channels only, or plugins only.
#[derive(Debug, Clone, Copy, PartialEq, Eq, Structural)]
pub enum SourceType {
    All,
    Tg,
    Plugin,
}

/// Identifier string of a source kind.
pub open spec fn source_type_name(t: SourceType) -> Seq<char> {
    match t {
        SourceType::All => "all"@,
        SourceType::Tg => "tg"@,
        SourceType::Plugin => "plugin"@,
    }
}

/// The source kind named by an identifier; anything unknown means `All`.
pub open spec fn source_type_from_name(s: Seq<char>) -> SourceType {
    if s == "tg"@ {
        SourceType::Tg
    } else if s == "plugin"@ {
        SourceType::Plugin
    } else {
        SourceType::All
    }
}

impl SourceType {
    /// Identifier (`"all"`, `"tg"` or `"plugin"`).
    pub fn as_str(self) -> (r: &'static str)
        ensures
            r@ == source_type_name(self),
    {
        match self {
            SourceType::All => "all",
            SourceType::Tg => "tg",
            SourceType::Plugin => "plugin",
        }
    }

    /// Parses an identifier; anything unknown means `All`.
    pub fn from_str(s: &str) -> (r: SourceType)
        ensures
            r == source_type_from_name(s@),
    {
        if str_eq(s, "tg") {
            SourceType::Tg
        } else if str_eq(s, "plugin") {
            SourceType::Plugin
        } else {
            SourceType::All
        }
    }
}

/// Parsing the identifier of a drive kind gives that kind back.
pub proof fn law_disk_type_name_round_trip(d: DiskType)
    ensures
        disk_type_from_name(disk_type_name(d)) == d,
{
    reveal_strlit("baidu");
    reveal_strlit("quark");
    reveal_strlit("aliyun");
    reveal_strlit("tianyi");
    reveal_strlit("xunlei");
    reveal_strlit("115");
    reveal_strlit("uc");
    reveal_strlit("123");
    reveal_strlit("mobile");
    reveal_strlit("magnet");
    reveal_strlit("ed2k");
    reveal_strlit("others");
    assert("baidu"@.len() == 5);
    assert("quark"@.len() == 5);
    assert("aliyun"@.len() == 6);
    assert("tianyi"@.len() == 6);
    assert("xunlei"@.len() == 6);
    assert("115"@.len() == 3);
    assert("uc"@.len() == 2);
    assert("123"@.len() == 3);
    assert("mobile"@.len() == 6);
    assert("magnet"@.len() == 6);
    assert("ed2k"@.len() == 4);
    assert("others"@.len() == 6);
    assert("quark"@[0] != "baidu"@[0]);
    assert("tianyi"@[0] != "aliyun"@[0]);
    assert("xunlei"@[0] != "aliyun"@[0]);
    assert("xunlei"@[0] != "tianyi"@[0]);
    assert("123"@[1] != "115"@[1]);
    assert("mobile"@[0] != "aliyun"@[0]);
    assert("mobile"@[0] != "tianyi"@[0]);
    assert("mobile"@[0] != "xunlei"@[0]);
    assert("magnet"@[0] != "aliyun"@[0]);
    assert("magnet"@[0] != "tianyi"@[0]);
    assert("magnet"@[0] != "xunlei"@[0]);
    assert("magnet"@[1] != "mobile"@[1]);
    assert("others"@[0] != "aliyun"@[0]);
    assert("others"@[0] != "tianyi"@[0]);
    assert("others"@[0] != "xunlei"@[0]);
    assert("others"@[0] != "mobile"@[0]);
    assert("others"@[0] != "magnet"@[0]);
}

/// Parsing the identifier of a source kind gives that kind back.
pub proof fn law_source_type_name_round_trip(t: SourceType)
    ensures
        source_type_from_name(source_type_name(t)) == t,
{
    reveal_strlit("all");
    reveal_strlit("tg");
    reveal_strlit("plugin");
    assert("all"@.len() == 3);
    assert("tg"@.len() == 2);
    assert("plugin"@.len() == 6);
}

/// The display list holds every kind except `Others`, each exactly once.
pub proof fn law_all_disk_types_complete(d: DiskType)
    ensures
        all_disk_types().contains(d) <==> d != DiskType::Others,
        all_disk_types().no_duplicates(),
{
    let s = all_disk_types();
    if d != DiskType::Others {
        let i: int = match d {
            DiskType::Baidu => 0,
            DiskType::Quark => 1,
            DiskType::Aliyun => 2,
            DiskType::Tianyi => 3,
            DiskType::Xunlei => 4,
            DiskType::N115 => 5,
            DiskType::Uc => 6,
            DiskType::N123 => 7,
            DiskType::Mobile => 8,
            DiskType::Magnet => 9,
            DiskType::Ed2k => 10,
            DiskType::Others => 0,
        };
        assert(s[i] == d);
    }
}


/// Fragments (lower case) of the user-agent strings of search-engine and
/// link-preview crawlers.
pub open spec fn crawler_ua_fragments() -> Seq<Seq<char>> {
    seq![
        "googlebot"@,
        "bingbot"@,
        "baiduspider"@,
        "sogou"@,
        "360spider"@,
        "yandexbot"@,
        "duckduckbot"@,
        "slurp"@,
        "facebookexternalhit"@,
        "twitterbot"@,
        "rogerbot"@,
        "linkedinbot"@,
        "embedly"@,
        "quora"@,
        "pinterest"@,
        "slack"@,
        "whatsapp"@,
        "telegrambot"@,
        "applebot"@,
        "petalbot"@,
        "ahrefsbot"@,
        "semrushbot"@,
        "dotbot"@,
    ]
}

/// The crawler user-agent fragments (see [`crawler_ua_fragments`]).
pub fn crawler_ua_fragment_list() -> (r: Vec<&'static str>)
    ensures
        r@.map_values(|s: &str| s@) == crawler_ua_fragments(),
{
    let r = vec![
        "googlebot",
        "bingbot",
        "baiduspider",
        "sogou",
        "360spider",
        "yandexbot",
        "duckduckbot",
        "slurp",
        "facebookexternalhit",
        "twitterbot",
        "rogerbot",
        "linkedinbot",
        "embedly",
        "quora",
        "pinterest",
        "slack",
        "whatsapp",
        "telegrambot",
        "applebot",
        "petalbot",
        "ahrefsbot",
        "semrushbot",
        "dotbot",
    ];
    assert(r@.map_values(|s: &str| s@) =~= crawler_ua_fragments());
    r
}

/// Popular search keywords, offered when nothing better is known.
pub open spec fn default_hot_keywords() -> Seq<Seq<char>> {
    seq![
        "流浪地球"@,
        "庆余年"@,
        "凡人修仙传"@,
        "三体"@,
        "哪吒"@,
        "封神"@,
        "鬼灭之刃"@,
        "海贼王"@,
        "火影忍者"@,
        "原神"@,
    ]
}

/// The popular search keywords (see [`default_hot_keywords`]).
pub fn hot_keyword_list() -> (r: Vec<&'static str>)
    ensures
        r@.map_values(|s: &str| s@) == default_hot_keywords(),
{
    let r = vec!["流浪地球", "庆余年", "凡人修仙传", "三体", "哪吒", "封神", "鬼灭之刃", "海贼王", "火影忍者", "原神"];
    assert(r@.map_values(|s: &str| s@) =~= default_hot_keywords());
    r
}

} // verus!
