//! Built-in Chinese rule tables.

use vstd::prelude::*;

use crate::cjk_english_spacing::{
    han_then_latin, has_han_latin_boundary, latin_then_han, lemma_spacing_flags_iff_boundary, spacing_description,
    CjkEnglishSpacing,
};
use crate::lint_group::{
    lemma_by_rule_name_sorted, lemma_lookup_absent_pub, spec_linter_lints, spec_named_lints, spec_organized, LintGroup,
    ZhLinter, ZhLinterV,
};
use crate::lint_kind::LintKind;
use crate::pattern_laws::{has_han, lemma_linter_pairs_longest_first, lemma_no_han_no_pattern_lints};
use crate::pattern_linter::{
    pair_active, pairs_view, spec_linter_of, spec_pattern_lints, ChinesePatternLinter, PatternPair, PatternPairV,
    PatternRuleSet, RuleSetV,
};
use crate::punctuation::{
    contains_han, ideographic_triple_period, lemma_no_han_only_triple_periods, punctuation_description,
    spec_punctuation_lints, ChinesePunctuation,
};
use crate::script::spec_is_han;
use crate::text::occurs_at;

verus! {

/// The pattern pair `bad → good` with its message.
pub open spec fn pv(bad: &str, good: &str, message: &str) -> PatternPairV {
    PatternPairV { bad: bad@, good: good@, message: message@ }
}

/// A pair whose fix differs from the text it replaces.
pub open spec fn pair_changes() -> spec_fn(PatternPairV) -> bool {
    |p: PatternPairV| p.bad != p.good
}

fn pair(bad: &str, good: &str, message: &str) -> (p: PatternPair)
    ensures
        p@ == pv(bad, good, message),
{
    PatternPair { bad: String::from_str(bad), good: String::from_str(good), message: String::from_str(message) }
}

proof fn lemma_pairs_view_push(s: Seq<PatternPair>, x: PatternPair)
    ensures
        pairs_view(s.push(x)) == pairs_view(s).push(x@),
{
    assert(pairs_view(s.push(x)) =~= pairs_view(s).push(x@));
}

/// Homophones, front/back nasal finals and idiom misspellings.
pub open spec fn homophone_table() -> Seq<PatternPairV> {
    seq![
        pv("惊天早上", "今天早上", "疑似前后鼻音混淆：应为「今天早上」。"),
        pv("经天早上", "今天早上", "疑似同音错字：应为「今天早上」。"),
        pv("精天早上", "今天早上", "疑似同音错字：应为「今天早上」。"),
        pv("因该", "应该", "疑似同音错字：应为「应该」。"),
        pv("应改", "应该", "疑似同音错字：应为「应该」。"),
        pv("按装", "安装", "疑似同音错字：应为「安装」。"),
        pv("安状", "安装", "疑似同音错字：应为「安装」。"),
        pv("再接再励", "再接再厉", "成语应为「再接再厉」。"),
        pv("针式", "正式", "疑似同音错字：在「正式」义时宜用「正式」。"),
        pv("幅射", "辐射", "应为「辐射」。"),
        pv("防碍", "妨碍", "应为「妨碍」。"),
        pv("凑和", "凑合", "应为「凑合」。"),
        pv("精萃", "精粹", "应为「精粹」。"),
        pv("震憾", "震撼", "应为「震撼」。"),
        pv("九宵", "九霄", "应为「九霄」。"),
        pv("泊来品", "舶来品", "应为「舶来品」。"),
        pv("气慨", "气概", "应为「气概」。"),
        pv("食不裹腹", "食不果腹", "成语应为「食不果腹」。"),
        pv("鸠占雀巢", "鸠占鹊巢", "成语应为「鸠占鹊巢」。"),
        pv("追朔", "追溯", "应为「追溯」。"),
        pv("耽心", "担心", "应为「担心」。"),
        pv("符和", "符合", "应为「符合」。"),
        pv("发奋图强", "发愤图强", "成语应为「发愤图强」。"),
        pv("明查暗访", "明察暗访", "成语应为「明察暗访」。"),
        pv("墨守陈规", "墨守成规", "成语应为「墨守成规」。"),
        pv("迫不急待", "迫不及待", "成语应为「迫不及待」。"),
        pv("悬梁刺骨", "悬梁刺股", "成语应为「悬梁刺股」。"),
        pv("走头无路", "走投无路", "成语应为「走投无路」。"),
        pv("不径而走", "不胫而走", "成语应为「不胫而走」。"),
        pv("世外桃园", "世外桃源", "应为「世外桃源」。"),
        pv("直接了当", "直截了当", "应为「直截了当」。"),
        pv("一愁莫展", "一筹莫展", "成语应为「一筹莫展」。"),
        pv("名信片", "明信片", "应为「明信片」。"),
        pv("水笼头", "水龙头", "应为「水龙头」。"),
        pv("罗嗦", "啰嗦", "应为「啰嗦」。"),
        pv("萎糜不振", "萎靡不振", "应为「萎靡不振」。"),
        pv("九洲", "九州", "应为「九州」。"),
        pv("重迭", "重叠", "应为「重叠」。"),
        pv("好象", "好像", "「象/像」混淆：应为「好像」。"),
    ]
}

/// Misuses of 的 / 地 / 得.
pub open spec fn de_di_de_table() -> Seq<PatternPairV> {
    seq![
        pv("开心的跑", "开心地跑", "修饰动词时用「地」：开心地跑。"),
        pv("高兴的说", "高兴地说", "修饰动词时用「地」：高兴地说。"),
        pv("认真的学习", "认真地学习", "修饰动词时用「地」：认真地学习。"),
        pv("仔细的检查", "仔细地检查", "修饰动词时用「地」：仔细地检查。"),
        pv("慢慢的走", "慢慢地走", "修饰动词时用「地」：慢慢地走。"),
        pv("快速的完成", "快速地完成", "修饰动词时用「地」：快速地完成。"),
        pv("安静的坐下", "安静地坐下", "修饰动词时用「地」：安静地坐下。"),
        pv("努力的工作", "努力地工作", "修饰动词时用「地」：努力地工作。"),
        pv("轻轻的放", "轻轻地放", "修饰动词时用「地」：轻轻地放。"),
        pv("大声的喊", "大声地喊", "修饰动词时用「地」：大声地喊。"),
        pv("顺利的完成", "顺利地完成", "修饰动词时用「地」：顺利地完成。"),
        pv("清楚的说明", "清楚地说明", "修饰动词时用「地」：清楚地说明。"),
        pv("仔细的观察", "仔细地观察", "修饰动词时用「地」：仔细地观察。"),
        pv("耐心的等待", "耐心地等待", "修饰动词时用「地」：耐心地等待。"),
        pv("跑的很快", "跑得很快", "补语前用「得」：跑得很快。"),
        pv("说的很好", "说得很好", "补语前用「得」：说得很好。"),
        pv("写的不错", "写得不错", "补语前用「得」：写得不错。"),
        pv("做的很好", "做得很好", "补语前用「得」：做得很好。"),
        pv("吃的很香", "吃得很香", "补语前用「得」：吃得很香。"),
        pv("学的很快", "学得很快", "补语前用「得」：学得很快。"),
        pv("走的很慢", "走得很慢", "补语前用「得」：走得很慢。"),
        pv("长的漂亮", "长得漂亮", "补语前用「得」：长得漂亮。"),
        pv("玩的开心", "玩得开心", "补语前用「得」：玩得开心。"),
        pv("睡的很晚", "睡得很晚", "补语前用「得」：睡得很晚。"),
        pv("听的清楚", "听得清楚", "补语前用「得」：听得清楚。"),
        pv("看的明白", "看得明白", "补语前用「得」：看得明白。"),
        pv("美丽地风景", "美丽的风景", "修饰名词时用「的」：美丽的风景。"),
        pv("红色地苹果", "红色的苹果", "修饰名词时用「的」：红色的苹果。"),
        pv("我地书", "我的书", "修饰名词时用「的」：我的书。"),
        pv("蓝蓝地天空", "蓝蓝的天空", "修饰名词时用「的」：蓝蓝的天空。"),
        pv("新鲜地水果", "新鲜的水果", "修饰名词时用「的」：新鲜的水果。"),
    ]
}

/// Easily confused words: 在/再, 做/作, 以/已, 象/像, 须/需, 登录/登陆 and others.
pub open spec fn word_confusion_table() -> Seq<PatternPairV> {
    seq![
        pv("在见", "再见", "「在/再」混淆：告别应为「再见」。"),
        pv("在见吧", "再见吧", "「在/再」混淆：告别应为「再见」。"),
        pv("在见一次", "再见一次", "「在/再」混淆：应为「再见」。"),
        pv("在次", "再次", "「在/再」混淆：应为「再次」。"),
        pv("在说", "再说", "「在/再」混淆：应为「再说」。"),
        pv("在考虑一下", "再考虑一下", "「在/再」混淆：应为「再考虑一下」。"),
        pv("在看一遍", "再看一遍", "「在/再」混淆：应为「再看一遍」。"),
        pv("在试一次", "再试一次", "「在/再」混淆：应为「再试一次」。"),
        pv("做业", "作业", "「做/作」混淆：应为「作业」。"),
        pv("作饭", "做饭", "「做/作」混淆：应为「做饭」。"),
        pv("作事", "做事", "「做/作」混淆：应为「做事」。"),
        pv("作梦", "做梦", "「做/作」混淆：应为「做梦」。"),
        pv("作工", "做工", "「做/作」混淆：应为「做工」。"),
        pv("做家", "作家", "「做/作」混淆：应为「作家」。"),
        pv("做品", "作品", "「做/作」混淆：应为「作品」。"),
        pv("做用", "作用", "「做/作」混淆：应为「作用」。"),
        pv("做者", "作者", "「做/作」混淆：应为「作者」。"),
        pv("做文", "作文", "「做/作」混淆：应为「作文」。"),
        pv("以经", "已经", "「以/已」混淆：应为「已经」。"),
        pv("以经完成", "已经完成", "「以/已」混淆：应为「已经」。"),
        pv("以经是", "已经是", "「以/已」混淆：应为「已经」。"),
        pv("已后", "以后", "「以/已」混淆：表示之后时间应为「以后」。"),
        pv("已及", "以及", "「以/已」混淆：应为「以及」。"),
        pv("已免", "以免", "「以/已」混淆：应为「以免」。"),
        pv("好象", "好像", "「象/像」混淆：应为「好像」。"),
        pv("成象", "成像", "技术语境中常为「成像」。"),
        pv("录象", "录像", "应为「录像」。"),
        pv("照象", "照像", "应为「照像」/「照相」。"),
        pv("象素", "像素", "应为「像素」。"),
        pv("肖象", "肖像", "应为「肖像」。"),
        pv("必需要", "必须要", "「须/需」冗余：宜用「必须要」或「需要」。"),
        pv("需须", "必须", "「须/需」混淆：应为「必须」。"),
        pv("须要", "需要", "「须/需」混淆：此处宜用「需要」。"),
        pv("必须要", "必须要", "「必须要」用法正确。"),
        pv("必需要求", "必须要求", "「须/需」：宜检查是否应为「必须」。"),
        pv("即然", "既然", "「即/既」混淆：应为「既然」。"),
        pv("既使", "即使", "「即/既」混淆：应为「即使」。"),
        pv("登陆网站", "登录网站", "上网操作为「登录」，不是「登陆」。"),
        pv("登陆系统", "登录系统", "系统操作为「登录」，不是「登陆」。"),
        pv("登陆账号", "登录账号", "操作为「登录」，不是「登陆」。"),
        pv("登陆游戏", "登录游戏", "操作为「登录」，不是「登陆」。"),
        pv("帐号", "账号", "现代汉语推荐「账号」。"),
        pv("帐号密码", "账号密码", "现代汉语推荐「账号」。"),
        pv("帐户", "账户", "现代汉语推荐「账户」。"),
        pv("其它的", "其他的", "「其它/其他」：指人/事物均可，现代常用「其他」。"),
    ]
}

/// Needless repetitions.
pub open spec fn redundancy_table() -> Seq<PatternPairV> {
    seq![
        pv("的的", "的", "多余重复：连续两个「的」。"),
        pv("了了", "了", "多余重复：连续两个「了」。"),
        pv("是是", "是", "多余重复：连续两个「是」。"),
        pv("的话的话", "的话", "多余重复。"),
        pv("非常非常非常", "非常", "程度副词过度重复，可精简。"),
        pv("必须须", "必须", "重复用字：应为「必须」。"),
        pv("需需要", "需要", "重复用字：应为「需要」。"),
        pv("进行进行", "进行", "多余重复。"),
        pv("可以可以", "可以", "多余重复。"),
    ]
}

fn homophone_pairs() -> (r: Vec<PatternPair>)
    ensures
        pairs_view(r@) == homophone_table().filter(pair_changes()),
{
    let mut v: Vec<PatternPair> = Vec::new();
    let p = pair("惊天早上", "今天早上", "疑似前后鼻音混淆：应为「今天早上」。");
    proof { lemma_pairs_view_push(v@, p); }
    v.push(p);
    let p = pair("经天早上", "今天早上", "疑似同音错字：应为「今天早上」。");
    proof { lemma_pairs_view_push(v@, p); }
    v.push(p);
    let p = pair("精天早上", "今天早上", "疑似同音错字：应为「今天早上」。");
    proof { lemma_pairs_view_push(v@, p); }
    v.push(p);
    let p = pair("因该", "应该", "疑似同音错字：应为「应该」。");
    proof { lemma_pairs_view_push(v@, p); }
    v.push(p);
    let p = pair("应改", "应该", "疑似同音错字：应为「应该」。");
    proof { lemma_pairs_view_push(v@, p); }
    v.push(p);
    let p = pair("按装", "安装", "疑似同音错字：应为「安装」。");
    proof { lemma_pairs_view_push(v@, p); }
    v.push(p);
    let p = pair("安状", "安装", "疑似同音错字：应为「安装」。");
    proof { lemma_pairs_view_push(v@, p); }
    v.push(p);
    let p = pair("再接再励", "再接再厉", "成语应为「再接再厉」。");
    proof { lemma_pairs_view_push(v@, p); }
    v.push(p);
    let p = pair("针式", "正式", "疑似同音错字：在「正式」义时宜用「正式」。");
    proof { lemma_pairs_view_push(v@, p); }
    v.push(p);
    let p = pair("幅射", "辐射", "应为「辐射」。");
    proof { lemma_pairs_view_push(v@, p); }
    v.push(p);
    let p = pair("防碍", "妨碍", "应为「妨碍」。");
    proof { lemma_pairs_view_push(v@, p); }
    v.push(p);
    let p = pair("凑和", "凑合", "应为「凑合」。");
    proof { lemma_pairs_view_push(v@, p); }
    v.push(p);
    let p = pair("精萃", "精粹", "应为「精粹」。");
    proof { lemma_pairs_view_push(v@, p); }
    v.push(p);
    let p = pair("震憾", "震撼", "应为「震撼」。");
    proof { lemma_pairs_view_push(v@, p); }
    v.push(p);
    let p = pair("九宵", "九霄", "应为「九霄」。");
    proof { lemma_pairs_view_push(v@, p); }
    v.push(p);
    let p = pair("泊来品", "舶来品", "应为「舶来品」。");
    proof { lemma_pairs_view_push(v@, p); }
    v.push(p);
    let p = pair("气慨", "气概", "应为「气概」。");
    proof { lemma_pairs_view_push(v@, p); }
    v.push(p);
    let p = pair("食不裹腹", "食不果腹", "成语应为「食不果腹」。");
    proof { lemma_pairs_view_push(v@, p); }
    v.push(p);
    let p = pair("鸠占雀巢", "鸠占鹊巢", "成语应为「鸠占鹊巢」。");
    proof { lemma_pairs_view_push(v@, p); }
    v.push(p);
    let p = pair("追朔", "追溯", "应为「追溯」。");
    proof { lemma_pairs_view_push(v@, p); }
    v.push(p);
    let p = pair("耽心", "担心", "应为「担心」。");
    proof { lemma_pairs_view_push(v@, p); }
    v.push(p);
    let p = pair("符和", "符合", "应为「符合」。");
    proof { lemma_pairs_view_push(v@, p); }
    v.push(p);
    let p = pair("发奋图强", "发愤图强", "成语应为「发愤图强」。");
    proof { lemma_pairs_view_push(v@, p); }
    v.push(p);
    let p = pair("明查暗访", "明察暗访", "成语应为「明察暗访」。");
    proof { lemma_pairs_view_push(v@, p); }
    v.push(p);
    let p = pair("墨守陈规", "墨守成规", "成语应为「墨守成规」。");
    proof { lemma_pairs_view_push(v@, p); }
    v.push(p);
    let p = pair("迫不急待", "迫不及待", "成语应为「迫不及待」。");
    proof { lemma_pairs_view_push(v@, p); }
    v.push(p);
    let p = pair("悬梁刺骨", "悬梁刺股", "成语应为「悬梁刺股」。");
    proof { lemma_pairs_view_push(v@, p); }
    v.push(p);
    let p = pair("走头无路", "走投无路", "成语应为「走投无路」。");
    proof { lemma_pairs_view_push(v@, p); }
    v.push(p);
    let p = pair("不径而走", "不胫而走", "成语应为「不胫而走」。");
    proof { lemma_pairs_view_push(v@, p); }
    v.push(p);
    let p = pair("世外桃园", "世外桃源", "应为「世外桃源」。");
    proof { lemma_pairs_view_push(v@, p); }
    v.push(p);
    let p = pair("直接了当", "直截了当", "应为「直截了当」。");
    proof { lemma_pairs_view_push(v@, p); }
    v.push(p);
    let p = pair("一愁莫展", "一筹莫展", "成语应为「一筹莫展」。");
    proof { lemma_pairs_view_push(v@, p); }
    v.push(p);
    let p = pair("名信片", "明信片", "应为「明信片」。");
    proof { lemma_pairs_view_push(v@, p); }
    v.push(p);
    let p = pair("水笼头", "水龙头", "应为「水龙头」。");
    proof { lemma_pairs_view_push(v@, p); }
    v.push(p);
    let p = pair("罗嗦", "啰嗦", "应为「啰嗦」。");
    proof { lemma_pairs_view_push(v@, p); }
    v.push(p);
    let p = pair("萎糜不振", "萎靡不振", "应为「萎靡不振」。");
    proof { lemma_pairs_view_push(v@, p); }
    v.push(p);
    let p = pair("九洲", "九州", "应为「九州」。");
    proof { lemma_pairs_view_push(v@, p); }
    v.push(p);
    let p = pair("重迭", "重叠", "应为「重叠」。");
    proof { lemma_pairs_view_push(v@, p); }
    v.push(p);
    let p = pair("好象", "好像", "「象/像」混淆：应为「好像」。");
    proof { lemma_pairs_view_push(v@, p); }
    v.push(p);
    assert(pairs_view(v@) =~= homophone_table());
    keep_changing_pairs(v)
}

fn de_di_de_pairs() -> (r: Vec<PatternPair>)
    ensures
        pairs_view(r@) == de_di_de_table(),
{
    let mut v: Vec<PatternPair> = Vec::new();
    let p = pair("开心的跑", "开心地跑", "修饰动词时用「地」：开心地跑。");
    proof { lemma_pairs_view_push(v@, p); }
    v.push(p);
    let p = pair("高兴的说", "高兴地说", "修饰动词时用「地」：高兴地说。");
    proof { lemma_pairs_view_push(v@, p); }
    v.push(p);
    let p = pair("认真的学习", "认真地学习", "修饰动词时用「地」：认真地学习。");
    proof { lemma_pairs_view_push(v@, p); }
    v.push(p);
    let p = pair("仔细的检查", "仔细地检查", "修饰动词时用「地」：仔细地检查。");
    proof { lemma_pairs_view_push(v@, p); }
    v.push(p);
    let p = pair("慢慢的走", "慢慢地走", "修饰动词时用「地」：慢慢地走。");
    proof { lemma_pairs_view_push(v@, p); }
    v.push(p);
    let p = pair("快速的完成", "快速地完成", "修饰动词时用「地」：快速地完成。");
    proof { lemma_pairs_view_push(v@, p); }
    v.push(p);
    let p = pair("安静的坐下", "安静地坐下", "修饰动词时用「地」：安静地坐下。");
    proof { lemma_pairs_view_push(v@, p); }
    v.push(p);
    let p = pair("努力的工作", "努力地工作", "修饰动词时用「地」：努力地工作。");
    proof { lemma_pairs_view_push(v@, p); }
    v.push(p);
    let p = pair("轻轻的放", "轻轻地放", "修饰动词时用「地」：轻轻地放。");
    proof { lemma_pairs_view_push(v@, p); }
    v.push(p);
    let p = pair("大声的喊", "大声地喊", "修饰动词时用「地」：大声地喊。");
    proof { lemma_pairs_view_push(v@, p); }
    v.push(p);
    let p = pair("顺利的完成", "顺利地完成", "修饰动词时用「地」：顺利地完成。");
    proof { lemma_pairs_view_push(v@, p); }
    v.push(p);
    let p = pair("清楚的说明", "清楚地说明", "修饰动词时用「地」：清楚地说明。");
    proof { lemma_pairs_view_push(v@, p); }
    v.push(p);
    let p = pair("仔细的观察", "仔细地观察", "修饰动词时用「地」：仔细地观察。");
    proof { lemma_pairs_view_push(v@, p); }
    v.push(p);
    let p = pair("耐心的等待", "耐心地等待", "修饰动词时用「地」：耐心地等待。");
    proof { lemma_pairs_view_push(v@, p); }
    v.push(p);
    let p = pair("跑的很快", "跑得很快", "补语前用「得」：跑得很快。");
    proof { lemma_pairs_view_push(v@, p); }
    v.push(p);
    let p = pair("说的很好", "说得很好", "补语前用「得」：说得很好。");
    proof { lemma_pairs_view_push(v@, p); }
    v.push(p);
    let p = pair("写的不错", "写得不错", "补语前用「得」：写得不错。");
    proof { lemma_pairs_view_push(v@, p); }
    v.push(p);
    let p = pair("做的很好", "做得很好", "补语前用「得」：做得很好。");
    proof { lemma_pairs_view_push(v@, p); }
    v.push(p);
    let p = pair("吃的很香", "吃得很香", "补语前用「得」：吃得很香。");
    proof { lemma_pairs_view_push(v@, p); }
    v.push(p);
    let p = pair("学的很快", "学得很快", "补语前用「得」：学得很快。");
    proof { lemma_pairs_view_push(v@, p); }
    v.push(p);
    let p = pair("走的很慢", "走得很慢", "补语前用「得」：走得很慢。");
    proof { lemma_pairs_view_push(v@, p); }
    v.push(p);
    let p = pair("长的漂亮", "长得漂亮", "补语前用「得」：长得漂亮。");
    proof { lemma_pairs_view_push(v@, p); }
    v.push(p);
    let p = pair("玩的开心", "玩得开心", "补语前用「得」：玩得开心。");
    proof { lemma_pairs_view_push(v@, p); }
    v.push(p);
    let p = pair("睡的很晚", "睡得很晚", "补语前用「得」：睡得很晚。");
    proof { lemma_pairs_view_push(v@, p); }
    v.push(p);
    let p = pair("听的清楚", "听得清楚", "补语前用「得」：听得清楚。");
    proof { lemma_pairs_view_push(v@, p); }
    v.push(p);
    let p = pair("看的明白", "看得明白", "补语前用「得」：看得明白。");
    proof { lemma_pairs_view_push(v@, p); }
    v.push(p);
    let p = pair("美丽地风景", "美丽的风景", "修饰名词时用「的」：美丽的风景。");
    proof { lemma_pairs_view_push(v@, p); }
    v.push(p);
    let p = pair("红色地苹果", "红色的苹果", "修饰名词时用「的」：红色的苹果。");
    proof { lemma_pairs_view_push(v@, p); }
    v.push(p);
    let p = pair("我地书", "我的书", "修饰名词时用「的」：我的书。");
    proof { lemma_pairs_view_push(v@, p); }
    v.push(p);
    let p = pair("蓝蓝地天空", "蓝蓝的天空", "修饰名词时用「的」：蓝蓝的天空。");
    proof { lemma_pairs_view_push(v@, p); }
    v.push(p);
    let p = pair("新鲜地水果", "新鲜的水果", "修饰名词时用「的」：新鲜的水果。");
    proof { lemma_pairs_view_push(v@, p); }
    v.push(p);
    assert(pairs_view(v@) =~= de_di_de_table());
    v
}

fn word_confusion_pairs() -> (r: Vec<PatternPair>)
    ensures
        pairs_view(r@) == word_confusion_table(),
{
    let mut v: Vec<PatternPair> = Vec::new();
    let p = pair("在见", "再见", "「在/再」混淆：告别应为「再见」。");
    proof { lemma_pairs_view_push(v@, p); }
    v.push(p);
    let p = pair("在见吧", "再见吧", "「在/再」混淆：告别应为「再见」。");
    proof { lemma_pairs_view_push(v@, p); }
    v.push(p);
    let p = pair("在见一次", "再见一次", "「在/再」混淆：应为「再见」。");
    proof { lemma_pairs_view_push(v@, p); }
    v.push(p);
    let p = pair("在次", "再次", "「在/再」混淆：应为「再次」。");
    proof { lemma_pairs_view_push(v@, p); }
    v.push(p);
    let p = pair("在说", "再说", "「在/再」混淆：应为「再说」。");
    proof { lemma_pairs_view_push(v@, p); }
    v.push(p);
    let p = pair("在考虑一下", "再考虑一下", "「在/再」混淆：应为「再考虑一下」。");
    proof { lemma_pairs_view_push(v@, p); }
    v.push(p);
    let p = pair("在看一遍", "再看一遍", "「在/再」混淆：应为「再看一遍」。");
    proof { lemma_pairs_view_push(v@, p); }
    v.push(p);
    let p = pair("在试一次", "再试一次", "「在/再」混淆：应为「再试一次」。");
    proof { lemma_pairs_view_push(v@, p); }
    v.push(p);
    let p = pair("做业", "作业", "「做/作」混淆：应为「作业」。");
    proof { lemma_pairs_view_push(v@, p); }
    v.push(p);
    let p = pair("作饭", "做饭", "「做/作」混淆：应为「做饭」。");
    proof { lemma_pairs_view_push(v@, p); }
    v.push(p);
    let p = pair("作事", "做事", "「做/作」混淆：应为「做事」。");
    proof { lemma_pairs_view_push(v@, p); }
    v.push(p);
    let p = pair("作梦", "做梦", "「做/作」混淆：应为「做梦」。");
    proof { lemma_pairs_view_push(v@, p); }
    v.push(p);
    let p = pair("作工", "做工", "「做/作」混淆：应为「做工」。");
    proof { lemma_pairs_view_push(v@, p); }
    v.push(p);
    let p = pair("做家", "作家", "「做/作」混淆：应为「作家」。");
    proof { lemma_pairs_view_push(v@, p); }
    v.push(p);
    let p = pair("做品", "作品", "「做/作」混淆：应为「作品」。");
    proof { lemma_pairs_view_push(v@, p); }
    v.push(p);
    let p = pair("做用", "作用", "「做/作」混淆：应为「作用」。");
    proof { lemma_pairs_view_push(v@, p); }
    v.push(p);
    let p = pair("做者", "作者", "「做/作」混淆：应为「作者」。");
    proof { lemma_pairs_view_push(v@, p); }
    v.push(p);
    let p = pair("做文", "作文", "「做/作」混淆：应为「作文」。");
    proof { lemma_pairs_view_push(v@, p); }
    v.push(p);
    let p = pair("以经", "已经", "「以/已」混淆：应为「已经」。");
    proof { lemma_pairs_view_push(v@, p); }
    v.push(p);
    let p = pair("以经完成", "已经完成", "「以/已」混淆：应为「已经」。");
    proof { lemma_pairs_view_push(v@, p); }
    v.push(p);
    let p = pair("以经是", "已经是", "「以/已」混淆：应为「已经」。");
    proof { lemma_pairs_view_push(v@, p); }
    v.push(p);
    let p = pair("已后", "以后", "「以/已」混淆：表示之后时间应为「以后」。");
    proof { lemma_pairs_view_push(v@, p); }
    v.push(p);
    let p = pair("已及", "以及", "「以/已」混淆：应为「以及」。");
    proof { lemma_pairs_view_push(v@, p); }
    v.push(p);
    let p = pair("已免", "以免", "「以/已」混淆：应为「以免」。");
    proof { lemma_pairs_view_push(v@, p); }
    v.push(p);
    let p = pair("好象", "好像", "「象/像」混淆：应为「好像」。");
    proof { lemma_pairs_view_push(v@, p); }
    v.push(p);
    let p = pair("成象", "成像", "技术语境中常为「成像」。");
    proof { lemma_pairs_view_push(v@, p); }
    v.push(p);
    let p = pair("录象", "录像", "应为「录像」。");
    proof { lemma_pairs_view_push(v@, p); }
    v.push(p);
    let p = pair("照象", "照像", "应为「照像」/「照相」。");
    proof { lemma_pairs_view_push(v@, p); }
    v.push(p);
    let p = pair("象素", "像素", "应为「像素」。");
    proof { lemma_pairs_view_push(v@, p); }
    v.push(p);
    let p = pair("肖象", "肖像", "应为「肖像」。");
    proof { lemma_pairs_view_push(v@, p); }
    v.push(p);
    let p = pair("必需要", "必须要", "「须/需」冗余：宜用「必须要」或「需要」。");
    proof { lemma_pairs_view_push(v@, p); }
    v.push(p);
    let p = pair("需须", "必须", "「须/需」混淆：应为「必须」。");
    proof { lemma_pairs_view_push(v@, p); }
    v.push(p);
    let p = pair("须要", "需要", "「须/需」混淆：此处宜用「需要」。");
    proof { lemma_pairs_view_push(v@, p); }
    v.push(p);
    let p = pair("必须要", "必须要", "「必须要」用法正确。");
    proof { lemma_pairs_view_push(v@, p); }
    v.push(p);
    let p = pair("必需要求", "必须要求", "「须/需」：宜检查是否应为「必须」。");
    proof { lemma_pairs_view_push(v@, p); }
    v.push(p);
    let p = pair("即然", "既然", "「即/既」混淆：应为「既然」。");
    proof { lemma_pairs_view_push(v@, p); }
    v.push(p);
    let p = pair("既使", "即使", "「即/既」混淆：应为「即使」。");
    proof { lemma_pairs_view_push(v@, p); }
    v.push(p);
    let p = pair("登陆网站", "登录网站", "上网操作为「登录」，不是「登陆」。");
    proof { lemma_pairs_view_push(v@, p); }
    v.push(p);
    let p = pair("登陆系统", "登录系统", "系统操作为「登录」，不是「登陆」。");
    proof { lemma_pairs_view_push(v@, p); }
    v.push(p);
    let p = pair("登陆账号", "登录账号", "操作为「登录」，不是「登陆」。");
    proof { lemma_pairs_view_push(v@, p); }
    v.push(p);
    let p = pair("登陆游戏", "登录游戏", "操作为「登录」，不是「登陆」。");
    proof { lemma_pairs_view_push(v@, p); }
    v.push(p);
    let p = pair("帐号", "账号", "现代汉语推荐「账号」。");
    proof { lemma_pairs_view_push(v@, p); }
    v.push(p);
    let p = pair("帐号密码", "账号密码", "现代汉语推荐「账号」。");
    proof { lemma_pairs_view_push(v@, p); }
    v.push(p);
    let p = pair("帐户", "账户", "现代汉语推荐「账户」。");
    proof { lemma_pairs_view_push(v@, p); }
    v.push(p);
    let p = pair("其它的", "其他的", "「其它/其他」：指人/事物均可，现代常用「其他」。");
    proof { lemma_pairs_view_push(v@, p); }
    v.push(p);
    assert(pairs_view(v@) =~= word_confusion_table());
    v
}

fn redundancy_pairs() -> (r: Vec<PatternPair>)
    ensures
        pairs_view(r@) == redundancy_table(),
{
    let mut v: Vec<PatternPair> = Vec::new();
    let p = pair("的的", "的", "多余重复：连续两个「的」。");
    proof { lemma_pairs_view_push(v@, p); }
    v.push(p);
    let p = pair("了了", "了", "多余重复：连续两个「了」。");
    proof { lemma_pairs_view_push(v@, p); }
    v.push(p);
    let p = pair("是是", "是", "多余重复：连续两个「是」。");
    proof { lemma_pairs_view_push(v@, p); }
    v.push(p);
    let p = pair("的话的话", "的话", "多余重复。");
    proof { lemma_pairs_view_push(v@, p); }
    v.push(p);
    let p = pair("非常非常非常", "非常", "程度副词过度重复，可精简。");
    proof { lemma_pairs_view_push(v@, p); }
    v.push(p);
    let p = pair("必须须", "必须", "重复用字：应为「必须」。");
    proof { lemma_pairs_view_push(v@, p); }
    v.push(p);
    let p = pair("需需要", "需要", "重复用字：应为「需要」。");
    proof { lemma_pairs_view_push(v@, p); }
    v.push(p);
    let p = pair("进行进行", "进行", "多余重复。");
    proof { lemma_pairs_view_push(v@, p); }
    v.push(p);
    let p = pair("可以可以", "可以", "多余重复。");
    proof { lemma_pairs_view_push(v@, p); }
    v.push(p);
    assert(pairs_view(v@) =~= redundancy_table());
    v
}

/// The pairs of `v` whose fix differs from the text it replaces, in order.
fn keep_changing_pairs(v: Vec<PatternPair>) -> (r: Vec<PatternPair>)
    ensures
        pairs_view(r@) == pairs_view(v@).filter(pair_changes()),
{
    let ghost pv = pairs_view(v@);
    let mut out: Vec<PatternPair> = Vec::new();
    let mut i: usize = 0;
    while i < v.len()
        invariant
            i <= v@.len(),
            pv == pairs_view(v@),
            pairs_view(out@) == pv.take(i as int).filter(pair_changes()),
        decreases v.len() - i,
    {
        proof {
            reveal_with_fuel(Seq::filter, 1);
            assert(pv.take(i + 1).drop_last() =~= pv.take(i as int));
            assert(pv[i as int] == v@[i as int]@);
        }
        if v[i].bad != v[i].good {
            let p = v[i].clone();
            proof { lemma_pairs_view_push(out@, p); }
            out.push(p);
        }
        i = i + 1;
    }
    assert(pv.take(v@.len() as int) =~= pv);
    out
}

/// The views of a sequence of rule sets.
pub open spec fn rule_sets_view(s: Seq<PatternRuleSet>) -> Seq<RuleSetV> {
    s.map_values(|r: PatternRuleSet| r@)
}

/// The built-in rule sets, in order.
pub open spec fn builtin_rule_sets() -> Seq<RuleSetV> {
    seq![
        RuleSetV {
            name: "ZhHomophoneSpell"@,
            description: "常见前后鼻音与同音/近音错字（拼写级），如「惊天早上」→「今天早上」。"@,
            lint_kind: LintKind::Spelling,
            priority: 40,
            pairs: homophone_table().filter(pair_changes()),
        },
        RuleSetV {
            name: "ZhDeDiDe"@,
            description: "「的/地/得」常见误用。"@,
            lint_kind: LintKind::Grammar,
            priority: 45,
            pairs: de_di_de_table(),
        },
        RuleSetV {
            name: "ZhWordConfusion"@,
            description: "常见易混词：在/再、做/作、以/已、象/像、须/需、登录/登陆 等。"@,
            lint_kind: LintKind::WordChoice,
            priority: 42,
            pairs: word_confusion_table(),
        },
        RuleSetV {
            name: "ZhRedundancy"@,
            description: "多余重复：的的、了了、非常非常非常 等。"@,
            lint_kind: LintKind::Repetition,
            priority: 50,
            pairs: redundancy_table(),
        },
    ]
}

/// Load all built-in pattern rule sets (embedded; no runtime file I/O required).
pub fn load_builtin_rule_sets() -> (r: Vec<PatternRuleSet>)
    ensures
        rule_sets_view(r@) == builtin_rule_sets(),
{
    let mut v: Vec<PatternRuleSet> = Vec::new();
    let set = PatternRuleSet {
        name: String::from_str("ZhHomophoneSpell"),
        description: String::from_str("常见前后鼻音与同音/近音错字（拼写级），如「惊天早上」→「今天早上」。"),
        lint_kind: LintKind::Spelling,
        priority: 40,
        pairs: homophone_pairs(),
    };
    proof {
        assert(rule_sets_view(v@.push(set)) =~= rule_sets_view(v@).push(set@));
    }
    v.push(set);
    let set = PatternRuleSet {
        name: String::from_str("ZhDeDiDe"),
        description: String::from_str("「的/地/得」常见误用。"),
        lint_kind: LintKind::Grammar,
        priority: 45,
        pairs: de_di_de_pairs(),
    };
    proof {
        assert(rule_sets_view(v@.push(set)) =~= rule_sets_view(v@).push(set@));
    }
    v.push(set);
    let set = PatternRuleSet {
        name: String::from_str("ZhWordConfusion"),
        description: String::from_str("常见易混词：在/再、做/作、以/已、象/像、须/需、登录/登陆 等。"),
        lint_kind: LintKind::WordChoice,
        priority: 42,
        pairs: word_confusion_pairs(),
    };
    proof {
        assert(rule_sets_view(v@.push(set)) =~= rule_sets_view(v@).push(set@));
    }
    v.push(set);
    let set = PatternRuleSet {
        name: String::from_str("ZhRedundancy"),
        description: String::from_str("多余重复：的的、了了、非常非常非常 等。"),
        lint_kind: LintKind::Repetition,
        priority: 50,
        pairs: redundancy_pairs(),
    };
    proof {
        assert(rule_sets_view(v@.push(set)) =~= rule_sets_view(v@).push(set@));
    }
    v.push(set);
    assert(rule_sets_view(v@) =~= builtin_rule_sets());
    v
}

/// The rule a built-in rule set becomes, under the set's name.
pub open spec fn pattern_rule_entry(set: RuleSetV) -> (Seq<char>, ZhLinterV) {
    (set.name, ZhLinterV::Pattern(spec_linter_of(set)))
}

/// The rules of the Chinese group, in order: the four phrase rules, then
/// punctuation, then CJK–English spacing.
pub open spec fn chinese_group_rules() -> Seq<(Seq<char>, ZhLinterV)> {
    builtin_rule_sets().map_values(|set: RuleSetV| pattern_rule_entry(set)) + seq![
        ("ZhPunctuation"@, ZhLinterV::Punctuation(punctuation_description())),
        ("ZhCjkEnglishSpacing"@, ZhLinterV::Spacing(spacing_description())),
    ]
}

/// Every rule of the Chinese group turned on.
pub open spec fn chinese_group_settings() -> Seq<(Seq<char>, bool)> {
    chinese_group_rules().map_values(|e: (Seq<char>, ZhLinterV)| (e.0, true))
}

/// The names of the Chinese rules are pairwise different.
pub proof fn lemma_chinese_rule_names_distinct()
    ensures
        forall|i: int, j: int|
            0 <= i < j < chinese_group_rules().len() ==> (#[trigger] chinese_group_rules()[i]).0
                != (#[trigger] chinese_group_rules()[j]).0,
{
    reveal_strlit("ZhHomophoneSpell");
    reveal_strlit("ZhDeDiDe");
    reveal_strlit("ZhWordConfusion");
    reveal_strlit("ZhRedundancy");
    reveal_strlit("ZhPunctuation");
    reveal_strlit("ZhCjkEnglishSpacing");
    let r = chinese_group_rules();
    assert(r.len() == 6);
    assert(r[0].0.len() == 16);
    assert(r[1].0.len() == 8);
    assert(r[2].0.len() == 15);
    assert(r[3].0.len() == 12);
    assert(r[4].0.len() == 13);
    assert(r[5].0.len() == 19);
}

/// Add `linter` under `name` when `name` is the next rule of the Chinese group.
fn add_next_rule(group: &mut LintGroup, name: &str, linter: ZhLinter, Ghost(k): Ghost<int>)
    requires
        0 <= k < chinese_group_rules().len(),
        old(group).rules() == chinese_group_rules().take(k),
        old(group).settings() == chinese_group_settings().take(k),
        name@ == chinese_group_rules()[k].0,
        linter@ == chinese_group_rules()[k].1,
    ensures
        final(group).rules() == chinese_group_rules().take(k + 1),
        final(group).settings() == chinese_group_settings().take(k + 1),
{
    proof {
        lemma_chinese_rule_names_distinct();
        let r = chinese_group_rules();
        assert forall|j: int| 0 <= j < old(group).rules().len() implies (#[trigger] old(group).rules()[j]).0 != name@ by {
            assert(old(group).rules()[j] == r[j]);
        }
        lemma_lookup_absent_pub(old(group).rules(), name@);
        let st = old(group).settings();
        assert forall|j: int| 0 <= j < st.len() implies (#[trigger] st[j]).0 != name@ by {
            assert(st[j].0 == r[j].0);
        }
        lemma_lookup_absent_pub(st, name@);
    }
    group.add(name, linter);
    group.set_rule_enabled(name, true);
    assert(group.rules() =~= chinese_group_rules().take(k + 1));
    assert(group.settings() =~= chinese_group_settings().take(k + 1));
}

/// Build a [`LintGroup`] with all Chinese rules enabled by default.
pub fn chinese_lint_group() -> (g: LintGroup)
    ensures
        g.rules() == chinese_group_rules(),
        g.settings() == chinese_group_settings(),
{
    let mut group = LintGroup::empty();
    assert(group.rules() =~= chinese_group_rules().take(0));
    assert(group.settings() =~= chinese_group_settings().take(0));
    let mut sets = load_builtin_rule_sets();
    let ghost all = builtin_rule_sets();
    let mut k: usize = 0;
    while sets.len() > 0
        invariant
            k <= 4,
            all == builtin_rule_sets(),
            rule_sets_view(sets@) == all.skip(k as int),
            group.rules() == chinese_group_rules().take(k as int),
            group.settings() == chinese_group_settings().take(k as int),
        decreases sets.len(),
    {
        let ghost before = sets@;
        let set = sets.remove(0);
        proof {
            assert(all.len() == 4);
            assert(rule_sets_view(before).len() == before.len());
            assert(k < 4);
            assert(all.skip(k as int)[0] == set@);
            assert(rule_sets_view(sets@) =~= rule_sets_view(before).drop_first());
            assert(all.skip(k as int).drop_first() =~= all.skip(k + 1));
            assert(chinese_group_rules()[k as int] == pattern_rule_entry(all[k as int]));
        }
        let name = set.name.clone();
        let linter = ChinesePatternLinter::from_rule_set(set);
        add_next_rule(&mut group, name.as_str(), ZhLinter::Pattern(linter), Ghost(k as int));
        k = k + 1;
    }
    assert(all.len() == 4);
    assert(all.skip(k as int).len() == 0);
    add_next_rule(&mut group, "ZhPunctuation", ZhLinter::Punctuation(ChinesePunctuation::new()), Ghost(4));
    add_next_rule(&mut group, "ZhCjkEnglishSpacing", ZhLinter::Spacing(CjkEnglishSpacing::new()), Ghost(5));
    assert(chinese_group_rules().take(6) =~= chinese_group_rules());
    assert(chinese_group_settings().take(6) =~= chinese_group_settings());
    group
}

/// The first character of the bad pattern of `p` is a Han character.
pub open spec fn bad_starts_han(p: PatternPairV) -> bool {
    p.bad.len() > 0 && spec_is_han(p.bad[0])
}

proof fn lemma_homophone_han()
    ensures
        forall|i: int| 0 <= i < homophone_table().len() ==> bad_starts_han(#[trigger] homophone_table()[i]),
{
    reveal_strlit("惊天早上");
    reveal_strlit("经天早上");
    reveal_strlit("精天早上");
    reveal_strlit("因该");
    reveal_strlit("应改");
    reveal_strlit("按装");
    reveal_strlit("安状");
    reveal_strlit("再接再励");
    reveal_strlit("针式");
    reveal_strlit("幅射");
    reveal_strlit("防碍");
    reveal_strlit("凑和");
    reveal_strlit("精萃");
    reveal_strlit("震憾");
    reveal_strlit("九宵");
    reveal_strlit("泊来品");
    reveal_strlit("气慨");
    reveal_strlit("食不裹腹");
    reveal_strlit("鸠占雀巢");
    reveal_strlit("追朔");
    reveal_strlit("耽心");
    reveal_strlit("符和");
    reveal_strlit("发奋图强");
    reveal_strlit("明查暗访");
    reveal_strlit("墨守陈规");
    reveal_strlit("迫不急待");
    reveal_strlit("悬梁刺骨");
    reveal_strlit("走头无路");
    reveal_strlit("不径而走");
    reveal_strlit("世外桃园");
    reveal_strlit("直接了当");
    reveal_strlit("一愁莫展");
    reveal_strlit("名信片");
    reveal_strlit("水笼头");
    reveal_strlit("罗嗦");
    reveal_strlit("萎糜不振");
    reveal_strlit("九洲");
    reveal_strlit("重迭");
    reveal_strlit("好象");
    let t = homophone_table();
    assert(t.len() == 39);
    assert forall|i: int| 0 <= i < t.len() implies bad_starts_han(#[trigger] t[i]) by {
        if i == 0 {
            assert(bad_starts_han(t[0]));
        } else if i == 1 {
            assert(bad_starts_han(t[1]));
        } else if i == 2 {
            assert(bad_starts_han(t[2]));
        } else if i == 3 {
            assert(bad_starts_han(t[3]));
        } else if i == 4 {
            assert(bad_starts_han(t[4]));
        } else if i == 5 {
            assert(bad_starts_han(t[5]));
        } else if i == 6 {
            assert(bad_starts_han(t[6]));
        } else if i == 7 {
            assert(bad_starts_han(t[7]));
        } else if i == 8 {
            assert(bad_starts_han(t[8]));
        } else if i == 9 {
            assert(bad_starts_han(t[9]));
        } else if i == 10 {
            assert(bad_starts_han(t[10]));
        } else if i == 11 {
            assert(bad_starts_han(t[11]));
        } else if i == 12 {
            assert(bad_starts_han(t[12]));
        } else if i == 13 {
            assert(bad_starts_han(t[13]));
        } else if i == 14 {
            assert(bad_starts_han(t[14]));
        } else if i == 15 {
            assert(bad_starts_han(t[15]));
        } else if i == 16 {
            assert(bad_starts_han(t[16]));
        } else if i == 17 {
            assert(bad_starts_han(t[17]));
        } else if i == 18 {
            assert(bad_starts_han(t[18]));
        } else if i == 19 {
            assert(bad_starts_han(t[19]));
        } else if i == 20 {
            assert(bad_starts_han(t[20]));
        } else if i == 21 {
            assert(bad_starts_han(t[21]));
        } else if i == 22 {
            assert(bad_starts_han(t[22]));
        } else if i == 23 {
            assert(bad_starts_han(t[23]));
        } else if i == 24 {
            assert(bad_starts_han(t[24]));
        } else if i == 25 {
            assert(bad_starts_han(t[25]));
        } else if i == 26 {
            assert(bad_starts_han(t[26]));
        } else if i == 27 {
            assert(bad_starts_han(t[27]));
        } else if i == 28 {
            assert(bad_starts_han(t[28]));
        } else if i == 29 {
            assert(bad_starts_han(t[29]));
        } else if i == 30 {
            assert(bad_starts_han(t[30]));
        } else if i == 31 {
            assert(bad_starts_han(t[31]));
        } else if i == 32 {
            assert(bad_starts_han(t[32]));
        } else if i == 33 {
            assert(bad_starts_han(t[33]));
        } else if i == 34 {
            assert(bad_starts_han(t[34]));
        } else if i == 35 {
            assert(bad_starts_han(t[35]));
        } else if i == 36 {
            assert(bad_starts_han(t[36]));
        } else if i == 37 {
            assert(bad_starts_han(t[37]));
        } else if i == 38 {
            assert(bad_starts_han(t[38]));
        }
    }
}

proof fn lemma_de_di_de_han()
    ensures
        forall|i: int| 0 <= i < de_di_de_table().len() ==> bad_starts_han(#[trigger] de_di_de_table()[i]),
{
    reveal_strlit("开心的跑");
    reveal_strlit("高兴的说");
    reveal_strlit("认真的学习");
    reveal_strlit("仔细的检查");
    reveal_strlit("慢慢的走");
    reveal_strlit("快速的完成");
    reveal_strlit("安静的坐下");
    reveal_strlit("努力的工作");
    reveal_strlit("轻轻的放");
    reveal_strlit("大声的喊");
    reveal_strlit("顺利的完成");
    reveal_strlit("清楚的说明");
    reveal_strlit("仔细的观察");
    reveal_strlit("耐心的等待");
    reveal_strlit("跑的很快");
    reveal_strlit("说的很好");
    reveal_strlit("写的不错");
    reveal_strlit("做的很好");
    reveal_strlit("吃的很香");
    reveal_strlit("学的很快");
    reveal_strlit("走的很慢");
    reveal_strlit("长的漂亮");
    reveal_strlit("玩的开心");
    reveal_strlit("睡的很晚");
    reveal_strlit("听的清楚");
    reveal_strlit("看的明白");
    reveal_strlit("美丽地风景");
    reveal_strlit("红色地苹果");
    reveal_strlit("我地书");
    reveal_strlit("蓝蓝地天空");
    reveal_strlit("新鲜地水果");
    let t = de_di_de_table();
    assert(t.len() == 31);
    assert forall|i: int| 0 <= i < t.len() implies bad_starts_han(#[trigger] t[i]) by {
        if i == 0 {
            assert(bad_starts_han(t[0]));
        } else if i == 1 {
            assert(bad_starts_han(t[1]));
        } else if i == 2 {
            assert(bad_starts_han(t[2]));
        } else if i == 3 {
            assert(bad_starts_han(t[3]));
        } else if i == 4 {
            assert(bad_starts_han(t[4]));
        } else if i == 5 {
            assert(bad_starts_han(t[5]));
        } else if i == 6 {
            assert(bad_starts_han(t[6]));
        } else if i == 7 {
            assert(bad_starts_han(t[7]));
        } else if i == 8 {
            assert(bad_starts_han(t[8]));
        } else if i == 9 {
            assert(bad_starts_han(t[9]));
        } else if i == 10 {
            assert(bad_starts_han(t[10]));
        } else if i == 11 {
            assert(bad_starts_han(t[11]));
        } else if i == 12 {
            assert(bad_starts_han(t[12]));
        } else if i == 13 {
            assert(bad_starts_han(t[13]));
        } else if i == 14 {
            assert(bad_starts_han(t[14]));
        } else if i == 15 {
            assert(bad_starts_han(t[15]));
        } else if i == 16 {
            assert(bad_starts_han(t[16]));
        } else if i == 17 {
            assert(bad_starts_han(t[17]));
        } else if i == 18 {
            assert(bad_starts_han(t[18]));
        } else if i == 19 {
            assert(bad_starts_han(t[19]));
        } else if i == 20 {
            assert(bad_starts_han(t[20]));
        } else if i == 21 {
            assert(bad_starts_han(t[21]));
        } else if i == 22 {
            assert(bad_starts_han(t[22]));
        } else if i == 23 {
            assert(bad_starts_han(t[23]));
        } else if i == 24 {
            assert(bad_starts_han(t[24]));
        } else if i == 25 {
            assert(bad_starts_han(t[25]));
        } else if i == 26 {
            assert(bad_starts_han(t[26]));
        } else if i == 27 {
            assert(bad_starts_han(t[27]));
        } else if i == 28 {
            assert(bad_starts_han(t[28]));
        } else if i == 29 {
            assert(bad_starts_han(t[29]));
        } else if i == 30 {
            assert(bad_starts_han(t[30]));
        }
    }
}

proof fn lemma_word_confusion_han()
    ensures
        forall|i: int| 0 <= i < word_confusion_table().len() ==> bad_starts_han(#[trigger] word_confusion_table()[i]),
{
    reveal_strlit("在见");
    reveal_strlit("在见吧");
    reveal_strlit("在见一次");
    reveal_strlit("在次");
    reveal_strlit("在说");
    reveal_strlit("在考虑一下");
    reveal_strlit("在看一遍");
    reveal_strlit("在试一次");
    reveal_strlit("做业");
    reveal_strlit("作饭");
    reveal_strlit("作事");
    reveal_strlit("作梦");
    reveal_strlit("作工");
    reveal_strlit("做家");
    reveal_strlit("做品");
    reveal_strlit("做用");
    reveal_strlit("做者");
    reveal_strlit("做文");
    reveal_strlit("以经");
    reveal_strlit("以经完成");
    reveal_strlit("以经是");
    reveal_strlit("已后");
    reveal_strlit("已及");
    reveal_strlit("已免");
    reveal_strlit("好象");
    reveal_strlit("成象");
    reveal_strlit("录象");
    reveal_strlit("照象");
    reveal_strlit("象素");
    reveal_strlit("肖象");
    reveal_strlit("必需要");
    reveal_strlit("需须");
    reveal_strlit("须要");
    reveal_strlit("必须要");
    reveal_strlit("必需要求");
    reveal_strlit("即然");
    reveal_strlit("既使");
    reveal_strlit("登陆网站");
    reveal_strlit("登陆系统");
    reveal_strlit("登陆账号");
    reveal_strlit("登陆游戏");
    reveal_strlit("帐号");
    reveal_strlit("帐号密码");
    reveal_strlit("帐户");
    reveal_strlit("其它的");
    let t = word_confusion_table();
    assert(t.len() == 45);
    assert forall|i: int| 0 <= i < t.len() implies bad_starts_han(#[trigger] t[i]) by {
        if i == 0 {
            assert(bad_starts_han(t[0]));
        } else if i == 1 {
            assert(bad_starts_han(t[1]));
        } else if i == 2 {
            assert(bad_starts_han(t[2]));
        } else if i == 3 {
            assert(bad_starts_han(t[3]));
        } else if i == 4 {
            assert(bad_starts_han(t[4]));
        } else if i == 5 {
            assert(bad_starts_han(t[5]));
        } else if i == 6 {
            assert(bad_starts_han(t[6]));
        } else if i == 7 {
            assert(bad_starts_han(t[7]));
        } else if i == 8 {
            assert(bad_starts_han(t[8]));
        } else if i == 9 {
            assert(bad_starts_han(t[9]));
        } else if i == 10 {
            assert(bad_starts_han(t[10]));
        } else if i == 11 {
            assert(bad_starts_han(t[11]));
        } else if i == 12 {
            assert(bad_starts_han(t[12]));
        } else if i == 13 {
            assert(bad_starts_han(t[13]));
        } else if i == 14 {
            assert(bad_starts_han(t[14]));
        } else if i == 15 {
            assert(bad_starts_han(t[15]));
        } else if i == 16 {
            assert(bad_starts_han(t[16]));
        } else if i == 17 {
            assert(bad_starts_han(t[17]));
        } else if i == 18 {
            assert(bad_starts_han(t[18]));
        } else if i == 19 {
            assert(bad_starts_han(t[19]));
        } else if i == 20 {
            assert(bad_starts_han(t[20]));
        } else if i == 21 {
            assert(bad_starts_han(t[21]));
        } else if i == 22 {
            assert(bad_starts_han(t[22]));
        } else if i == 23 {
            assert(bad_starts_han(t[23]));
        } else if i == 24 {
            assert(bad_starts_han(t[24]));
        } else if i == 25 {
            assert(bad_starts_han(t[25]));
        } else if i == 26 {
            assert(bad_starts_han(t[26]));
        } else if i == 27 {
            assert(bad_starts_han(t[27]));
        } else if i == 28 {
            assert(bad_starts_han(t[28]));
        } else if i == 29 {
            assert(bad_starts_han(t[29]));
        } else if i == 30 {
            assert(bad_starts_han(t[30]));
        } else if i == 31 {
            assert(bad_starts_han(t[31]));
        } else if i == 32 {
            assert(bad_starts_han(t[32]));
        } else if i == 33 {
            assert(bad_starts_han(t[33]));
        } else if i == 34 {
            assert(bad_starts_han(t[34]));
        } else if i == 35 {
            assert(bad_starts_han(t[35]));
        } else if i == 36 {
            assert(bad_starts_han(t[36]));
        } else if i == 37 {
            assert(bad_starts_han(t[37]));
        } else if i == 38 {
            assert(bad_starts_han(t[38]));
        } else if i == 39 {
            assert(bad_starts_han(t[39]));
        } else if i == 40 {
            assert(bad_starts_han(t[40]));
        } else if i == 41 {
            assert(bad_starts_han(t[41]));
        } else if i == 42 {
            assert(bad_starts_han(t[42]));
        } else if i == 43 {
            assert(bad_starts_han(t[43]));
        } else if i == 44 {
            assert(bad_starts_han(t[44]));
        }
    }
}

proof fn lemma_redundancy_han()
    ensures
        forall|i: int| 0 <= i < redundancy_table().len() ==> bad_starts_han(#[trigger] redundancy_table()[i]),
{
    reveal_strlit("的的");
    reveal_strlit("了了");
    reveal_strlit("是是");
    reveal_strlit("的话的话");
    reveal_strlit("非常非常非常");
    reveal_strlit("必须须");
    reveal_strlit("需需要");
    reveal_strlit("进行进行");
    reveal_strlit("可以可以");
    let t = redundancy_table();
    assert(t.len() == 9);
    assert forall|i: int| 0 <= i < t.len() implies bad_starts_han(#[trigger] t[i]) by {
        if i == 0 {
            assert(bad_starts_han(t[0]));
        } else if i == 1 {
            assert(bad_starts_han(t[1]));
        } else if i == 2 {
            assert(bad_starts_han(t[2]));
        } else if i == 3 {
            assert(bad_starts_han(t[3]));
        } else if i == 4 {
            assert(bad_starts_han(t[4]));
        } else if i == 5 {
            assert(bad_starts_han(t[5]));
        } else if i == 6 {
            assert(bad_starts_han(t[6]));
        } else if i == 7 {
            assert(bad_starts_han(t[7]));
        } else if i == 8 {
            assert(bad_starts_han(t[8]));
        }
    }
}

/// Every pair of every built-in rule set has a Han character in its bad pattern.
proof fn lemma_builtin_bad_han(k: int)
    requires
        0 <= k < builtin_rule_sets().len(),
    ensures
        forall|j: int| 0 <= j < builtin_rule_sets()[k].pairs.len() ==> has_han(#[trigger] builtin_rule_sets()[k].pairs[j].bad),
{
    lemma_homophone_han();
    lemma_de_di_de_han();
    lemma_word_confusion_han();
    lemma_redundancy_han();
    let ps = builtin_rule_sets()[k].pairs;
    assert forall|j: int| 0 <= j < ps.len() implies has_han(#[trigger] ps[j].bad) by {
        let t = if k == 0 {
            homophone_table()
        } else if k == 1 {
            de_di_de_table()
        } else if k == 2 {
            word_confusion_table()
        } else {
            redundancy_table()
        };
        if k == 0 {
            assert(ps == t.filter(pair_changes()));
            assert(ps.contains(ps[j]));
            t.lemma_filter_contains_rev(pair_changes(), ps[j]);
        }
        assert(t.contains(ps[j]));
        let w = choose|w: int| 0 <= w < t.len() && t[w] == ps[j];
        assert(bad_starts_han(t[w]));
        assert(spec_is_han(ps[j].bad[0]));
    }
}

/// The built-in phrase rules report nothing on a text without Han characters
/// (such as pure English text).
pub proof fn lemma_builtin_phrases_quiet_without_han(s: Seq<char>)
    requires
        !has_han(s),
    ensures
        forall|k: int|
            0 <= k < builtin_rule_sets().len() ==> spec_pattern_lints(spec_linter_of(#[trigger] builtin_rule_sets()[k]), s).len()
                == 0,
{
    assert forall|k: int| 0 <= k < builtin_rule_sets().len() implies spec_pattern_lints(
        spec_linter_of(#[trigger] builtin_rule_sets()[k]),
        s,
    ).len() == 0 by {
        let set = builtin_rule_sets()[k];
        let l = spec_linter_of(set);
        lemma_builtin_bad_han(k);
        lemma_linter_pairs_longest_first(set);
        assert forall|j: int| 0 <= j < l.pairs.len() && pair_active(#[trigger] l.pairs[j]) implies has_han(l.pairs[j].bad) by {
            assert(set.pairs.contains(l.pairs[j]));
            let w = choose|w: int| 0 <= w < set.pairs.len() && set.pairs[w] == l.pairs[j];
            assert(has_han(set.pairs[w].bad));
        }
        lemma_no_han_no_pattern_lints(l, s);
    }
}

/// Each entry of the organised lints is a rule's name with the lints it reports.
proof fn lemma_organized_entries(rules: Seq<(Seq<char>, ZhLinterV)>, config: Seq<(Seq<char>, bool)>, s: Seq<char>)
    ensures
        forall|i: int|
            0 <= i < spec_organized(rules, config, s).len() ==> exists|k: int|
                0 <= k < rules.len() && #[trigger] spec_organized(rules, config, s)[i] == (
                    rules[k].0,
                    spec_linter_lints(rules[k].1, s),
                ),
    decreases rules.len(),
{
    if rules.len() > 0 {
        let d = rules.drop_last();
        lemma_organized_entries(d, config, s);
        let prev = spec_organized(d, config, s);
        let cur = spec_organized(rules, config, s);
        assert forall|i: int| 0 <= i < cur.len() implies exists|k: int|
            0 <= k < rules.len() && #[trigger] cur[i] == (rules[k].0, spec_linter_lints(rules[k].1, s)) by {
            if i < prev.len() {
                assert(cur[i] == prev[i]);
                let k = choose|k: int| 0 <= k < d.len() && #[trigger] prev[i] == (d[k].0, spec_linter_lints(d[k].1, s));
                assert(d[k] == rules[k]);
            } else {
                assert(cur[i] == (rules.last().0, spec_linter_lints(rules.last().1, s)));
                assert(rules.last() == rules[rules.len() - 1]);
            }
        }
    }
}

/// On a text with neither Han characters nor ideographic full stops (such
/// as pure English text), the Chinese rules report nothing, whichever of
/// them are turned on.
pub proof fn lemma_chinese_rules_quiet_on_english(settings: Seq<(Seq<char>, bool)>, s: Seq<char>)
    requires
        !has_han(s),
        !s.contains('。'),
    ensures
        forall|i: int|
            0 <= i < spec_named_lints(chinese_group_rules(), settings, s).len() ==> (#[trigger] spec_named_lints(
                chinese_group_rules(),
                settings,
                s,
            )[i]).1.len() == 0,
{
    let rules = chinese_group_rules();
    let n = spec_organized(rules, settings, s);
    let r = spec_named_lints(rules, settings, s);
    lemma_organized_entries(rules, settings, s);
    lemma_by_rule_name_sorted(n);
    lemma_builtin_phrases_quiet_without_han(s);
    // Punctuation: only runs of 。。。, and there are none.
    assert(!contains_han(s));
    lemma_no_han_only_triple_periods(s);
    let pl = spec_punctuation_lints(s);
    if pl.len() > 0 {
        assert(occurs_at(s, ideographic_triple_period(), pl[0].start));
        let st = pl[0].start;
        assert(s.subrange(st, st + 3) == ideographic_triple_period());
        assert(s[st] == s.subrange(st, st + 3)[0]);
        assert(s.contains(s[st]));
    }
    // Spacing: a boundary needs a Han character.
    lemma_spacing_flags_iff_boundary(s);
    if has_han_latin_boundary(s) {
        let q = choose|q: int| han_then_latin(s, q) || latin_then_han(s, q);
        if han_then_latin(s, q) {
            assert(spec_is_han(s[q]));
        } else {
            assert(spec_is_han(s[q + 1]));
        }
    }
    assert forall|i: int| 0 <= i < r.len() implies (#[trigger] r[i]).1.len() == 0 by {
        assert(n.contains(r[i]));
        let w = choose|w: int| 0 <= w < n.len() && n[w] == r[i];
        let k = choose|k: int| 0 <= k < rules.len() && #[trigger] n[w] == (rules[k].0, spec_linter_lints(rules[k].1, s));
        let nb = builtin_rule_sets().len();
        if k < nb {
            assert(rules[k] == pattern_rule_entry(builtin_rule_sets()[k]));
        } else if k == nb {
            assert(rules[k].1 == ZhLinterV::Punctuation(punctuation_description()));
        } else {
            assert(rules[k].1 == ZhLinterV::Spacing(spacing_description()));
        }
    }
}

/// `bad` and `good` have one length and differ in exactly the character at `k`.
pub open spec fn differs_only_at(bad: Seq<char>, good: Seq<char>, k: int) -> bool {
    &&& 0 <= k < bad.len() && bad.len() == good.len() && bad[k] != good[k]
    &&& forall|j: int| 0 <= j < bad.len() && j != k ==> bad[j] == good[j]
}

/// `w` stands in `s` from position `q`.
pub open spec fn contains_at(s: Seq<char>, w: Seq<char>, q: int) -> bool {
    0 <= q && q + w.len() <= s.len() && s.subrange(q, q + w.len()) == w
}

/// `w` stands in `s` in 「」 from position `q`.
pub open spec fn quotes_at(s: Seq<char>, w: Seq<char>, q: int) -> bool {
    contains_at(s, seq!['「'] + w + seq!['」'], q)
}

/// One of 的, 地, 得.
pub open spec fn is_de_char(c: char) -> bool {
    c == '的' || c == '地' || c == '得'
}

/// A misspelling pair: one character is wrong, and the message quotes the fix in 「」.
pub open spec fn homophone_pair_ok(p: PatternPairV) -> bool {
    &&& exists|k: int| #[trigger] differs_only_at(p.bad, p.good, k)
    &&& exists|q: int| #[trigger] quotes_at(p.message, p.good, q)
}

/// A 的/地/得 pair: one of 的, 地, 得 is exchanged for another; the message
/// names the right one in 「」 and ends with the fixed phrase and `。`.
pub open spec fn de_pair_ok(p: PatternPairV) -> bool {
    &&& exists|k: int, q: int|
        #[trigger] differs_only_at(p.bad, p.good, k) && is_de_char(p.bad[k]) && is_de_char(p.good[k])
            && #[trigger] quotes_at(p.message, seq![p.good[k]], q)
    &&& contains_at(p.message, p.good.push('。'), p.message.len() - p.good.len() - 1)
}

/// A confused-word pair: one character is exchanged, and the message names
/// the right character; or a guard, whose fix is its own text.
pub open spec fn confusion_pair_ok(p: PatternPairV) -> bool {
    ||| p.bad == p.good
    ||| exists|k: int, q: int|
        #[trigger] differs_only_at(p.bad, p.good, k) && 0 <= q < p.message.len() && #[trigger] p.message[q] == p.good[k]
}

/// A repetition pair: the fix is shorter, and is how the text begins or ends.
pub open spec fn redundancy_pair_ok(p: PatternPairV) -> bool {
    &&& p.bad.len() > p.good.len()
    &&& (p.bad.take(p.good.len() as int) == p.good || p.bad.skip(p.bad.len() - p.good.len()) == p.good)
}


/// Each misspelling pair changes one character, and its message quotes the fix.
pub proof fn lemma_homophone_pairs_ok()
    ensures
        forall|i: int| 0 <= i < homophone_table().len() ==> homophone_pair_ok(#[trigger] homophone_table()[i]),
{
    let t = homophone_table();
    assert(t.len() == 39);
    assert forall|i: int| 0 <= i < t.len() implies homophone_pair_ok(#[trigger] t[i]) by {
        if i == 0 {
            reveal_strlit("惊天早上");
            reveal_strlit("今天早上");
            reveal_strlit("疑似前后鼻音混淆：应为「今天早上」。");
            let p = t[0];
            assert(differs_only_at(p.bad, p.good, 0));
            assert(p.message.subrange(11, 17) =~= seq!['「'] + p.good + seq!['」']);
            assert(quotes_at(p.message, p.good, 11));
        } else if i == 1 {
            reveal_strlit("经天早上");
            reveal_strlit("今天早上");
            reveal_strlit("疑似同音错字：应为「今天早上」。");
            let p = t[1];
            assert(differs_only_at(p.bad, p.good, 0));
            assert(p.message.subrange(9, 15) =~= seq!['「'] + p.good + seq!['」']);
            assert(quotes_at(p.message, p.good, 9));
        } else if i == 2 {
            reveal_strlit("精天早上");
            reveal_strlit("今天早上");
            reveal_strlit("疑似同音错字：应为「今天早上」。");
            let p = t[2];
            assert(differs_only_at(p.bad, p.good, 0));
            assert(p.message.subrange(9, 15) =~= seq!['「'] + p.good + seq!['」']);
            assert(quotes_at(p.message, p.good, 9));
        } else if i == 3 {
            reveal_strlit("因该");
            reveal_strlit("应该");
            reveal_strlit("疑似同音错字：应为「应该」。");
            let p = t[3];
            assert(differs_only_at(p.bad, p.good, 0));
            assert(p.message.subrange(9, 13) =~= seq!['「'] + p.good + seq!['」']);
            assert(quotes_at(p.message, p.good, 9));
        } else if i == 4 {
            reveal_strlit("应改");
            reveal_strlit("应该");
            reveal_strlit("疑似同音错字：应为「应该」。");
            let p = t[4];
            assert(differs_only_at(p.bad, p.good, 1));
            assert(p.message.subrange(9, 13) =~= seq!['「'] + p.good + seq!['」']);
            assert(quotes_at(p.message, p.good, 9));
        } else if i == 5 {
            reveal_strlit("按装");
            reveal_strlit("安装");
            reveal_strlit("疑似同音错字：应为「安装」。");
            let p = t[5];
            assert(differs_only_at(p.bad, p.good, 0));
            assert(p.message.subrange(9, 13) =~= seq!['「'] + p.good + seq!['」']);
            assert(quotes_at(p.message, p.good, 9));
        } else if i == 6 {
            reveal_strlit("安状");
            reveal_strlit("安装");
            reveal_strlit("疑似同音错字：应为「安装」。");
            let p = t[6];
            assert(differs_only_at(p.bad, p.good, 1));
            assert(p.message.subrange(9, 13) =~= seq!['「'] + p.good + seq!['」']);
            assert(quotes_at(p.message, p.good, 9));
        } else if i == 7 {
            reveal_strlit("再接再励");
            reveal_strlit("再接再厉");
            reveal_strlit("成语应为「再接再厉」。");
            let p = t[7];
            assert(differs_only_at(p.bad, p.good, 3));
            assert(p.message.subrange(4, 10) =~= seq!['「'] + p.good + seq!['」']);
            assert(quotes_at(p.message, p.good, 4));
        } else if i == 8 {
            reveal_strlit("针式");
            reveal_strlit("正式");
            reveal_strlit("疑似同音错字：在「正式」义时宜用「正式」。");
            let p = t[8];
            assert(differs_only_at(p.bad, p.good, 0));
            assert(p.message.subrange(8, 12) =~= seq!['「'] + p.good + seq!['」']);
            assert(quotes_at(p.message, p.good, 8));
        } else if i == 9 {
            reveal_strlit("幅射");
            reveal_strlit("辐射");
            reveal_strlit("应为「辐射」。");
            let p = t[9];
            assert(differs_only_at(p.bad, p.good, 0));
            assert(p.message.subrange(2, 6) =~= seq!['「'] + p.good + seq!['」']);
            assert(quotes_at(p.message, p.good, 2));
        } else if i == 10 {
            reveal_strlit("防碍");
            reveal_strlit("妨碍");
            reveal_strlit("应为「妨碍」。");
            let p = t[10];
            assert(differs_only_at(p.bad, p.good, 0));
            assert(p.message.subrange(2, 6) =~= seq!['「'] + p.good + seq!['」']);
            assert(quotes_at(p.message, p.good, 2));
        } else if i == 11 {
            reveal_strlit("凑和");
            reveal_strlit("凑合");
            reveal_strlit("应为「凑合」。");
            let p = t[11];
            assert(differs_only_at(p.bad, p.good, 1));
            assert(p.message.subrange(2, 6) =~= seq!['「'] + p.good + seq!['」']);
            assert(quotes_at(p.message, p.good, 2));
        } else if i == 12 {
            reveal_strlit("精萃");
            reveal_strlit("精粹");
            reveal_strlit("应为「精粹」。");
            let p = t[12];
            assert(differs_only_at(p.bad, p.good, 1));
            assert(p.message.subrange(2, 6) =~= seq!['「'] + p.good + seq!['」']);
            assert(quotes_at(p.message, p.good, 2));
        } else if i == 13 {
            reveal_strlit("震憾");
            reveal_strlit("震撼");
            reveal_strlit("应为「震撼」。");
            let p = t[13];
            assert(differs_only_at(p.bad, p.good, 1));
            assert(p.message.subrange(2, 6) =~= seq!['「'] + p.good + seq!['」']);
            assert(quotes_at(p.message, p.good, 2));
        } else if i == 14 {
            reveal_strlit("九宵");
            reveal_strlit("九霄");
            reveal_strlit("应为「九霄」。");
            let p = t[14];
            assert(differs_only_at(p.bad, p.good, 1));
            assert(p.message.subrange(2, 6) =~= seq!['「'] + p.good + seq!['」']);
            assert(quotes_at(p.message, p.good, 2));
        } else if i == 15 {
            reveal_strlit("泊来品");
            reveal_strlit("舶来品");
            reveal_strlit("应为「舶来品」。");
            let p = t[15];
            assert(differs_only_at(p.bad, p.good, 0));
            assert(p.message.subrange(2, 7) =~= seq!['「'] + p.good + seq!['」']);
            assert(quotes_at(p.message, p.good, 2));
        } else if i == 16 {
            reveal_strlit("气慨");
            reveal_strlit("气概");
            reveal_strlit("应为「气概」。");
            let p = t[16];
            assert(differs_only_at(p.bad, p.good, 1));
            assert(p.message.subrange(2, 6) =~= seq!['「'] + p.good + seq!['」']);
            assert(quotes_at(p.message, p.good, 2));
        } else if i == 17 {
            reveal_strlit("食不裹腹");
            reveal_strlit("食不果腹");
            reveal_strlit("成语应为「食不果腹」。");
            let p = t[17];
            assert(differs_only_at(p.bad, p.good, 2));
            assert(p.message.subrange(4, 10) =~= seq!['「'] + p.good + seq!['」']);
            assert(quotes_at(p.message, p.good, 4));
        } else if i == 18 {
            reveal_strlit("鸠占雀巢");
            reveal_strlit("鸠占鹊巢");
            reveal_strlit("成语应为「鸠占鹊巢」。");
            let p = t[18];
            assert(differs_only_at(p.bad, p.good, 2));
            assert(p.message.subrange(4, 10) =~= seq!['「'] + p.good + seq!['」']);
            assert(quotes_at(p.message, p.good, 4));
        } else if i == 19 {
            reveal_strlit("追朔");
            reveal_strlit("追溯");
            reveal_strlit("应为「追溯」。");
            let p = t[19];
            assert(differs_only_at(p.bad, p.good, 1));
            assert(p.message.subrange(2, 6) =~= seq!['「'] + p.good + seq!['」']);
            assert(quotes_at(p.message, p.good, 2));
        } else if i == 20 {
            reveal_strlit("耽心");
            reveal_strlit("担心");
            reveal_strlit("应为「担心」。");
            let p = t[20];
            assert(differs_only_at(p.bad, p.good, 0));
            assert(p.message.subrange(2, 6) =~= seq!['「'] + p.good + seq!['」']);
            assert(quotes_at(p.message, p.good, 2));
        } else if i == 21 {
            reveal_strlit("符和");
            reveal_strlit("符合");
            reveal_strlit("应为「符合」。");
            let p = t[21];
            assert(differs_only_at(p.bad, p.good, 1));
            assert(p.message.subrange(2, 6) =~= seq!['「'] + p.good + seq!['」']);
            assert(quotes_at(p.message, p.good, 2));
        } else if i == 22 {
            reveal_strlit("发奋图强");
            reveal_strlit("发愤图强");
            reveal_strlit("成语应为「发愤图强」。");
            let p = t[22];
            assert(differs_only_at(p.bad, p.good, 1));
            assert(p.message.subrange(4, 10) =~= seq!['「'] + p.good + seq!['」']);
            assert(quotes_at(p.message, p.good, 4));
        } else if i == 23 {
            reveal_strlit("明查暗访");
            reveal_strlit("明察暗访");
            reveal_strlit("成语应为「明察暗访」。");
            let p = t[23];
            assert(differs_only_at(p.bad, p.good, 1));
            assert(p.message.subrange(4, 10) =~= seq!['「'] + p.good + seq!['」']);
            assert(quotes_at(p.message, p.good, 4));
        } else if i == 24 {
            reveal_strlit("墨守陈规");
            reveal_strlit("墨守成规");
            reveal_strlit("成语应为「墨守成规」。");
            let p = t[24];
            assert(differs_only_at(p.bad, p.good, 2));
            assert(p.message.subrange(4, 10) =~= seq!['「'] + p.good + seq!['」']);
            assert(quotes_at(p.message, p.good, 4));
        } else if i == 25 {
            reveal_strlit("迫不急待");
            reveal_strlit("迫不及待");
            reveal_strlit("成语应为「迫不及待」。");
            let p = t[25];
            assert(differs_only_at(p.bad, p.good, 2));
            assert(p.message.subrange(4, 10) =~= seq!['「'] + p.good + seq!['」']);
            assert(quotes_at(p.message, p.good, 4));
        } else if i == 26 {
            reveal_strlit("悬梁刺骨");
            reveal_strlit("悬梁刺股");
            reveal_strlit("成语应为「悬梁刺股」。");
            let p = t[26];
            assert(differs_only_at(p.bad, p.good, 3));
            assert(p.message.subrange(4, 10) =~= seq!['「'] + p.good + seq!['」']);
            assert(quotes_at(p.message, p.good, 4));
        } else if i == 27 {
            reveal_strlit("走头无路");
            reveal_strlit("走投无路");
            reveal_strlit("成语应为「走投无路」。");
            let p = t[27];
            assert(differs_only_at(p.bad, p.good, 1));
            assert(p.message.subrange(4, 10) =~= seq!['「'] + p.good + seq!['」']);
            assert(quotes_at(p.message, p.good, 4));
        } else if i == 28 {
            reveal_strlit("不径而走");
            reveal_strlit("不胫而走");
            reveal_strlit("成语应为「不胫而走」。");
            let p = t[28];
            assert(differs_only_at(p.bad, p.good, 1));
            assert(p.message.subrange(4, 10) =~= seq!['「'] + p.good + seq!['」']);
            assert(quotes_at(p.message, p.good, 4));
        } else if i == 29 {
            reveal_strlit("世外桃园");
            reveal_strlit("世外桃源");
            reveal_strlit("应为「世外桃源」。");
            let p = t[29];
            assert(differs_only_at(p.bad, p.good, 3));
            assert(p.message.subrange(2, 8) =~= seq!['「'] + p.good + seq!['」']);
            assert(quotes_at(p.message, p.good, 2));
        } else if i == 30 {
            reveal_strlit("直接了当");
            reveal_strlit("直截了当");
            reveal_strlit("应为「直截了当」。");
            let p = t[30];
            assert(differs_only_at(p.bad, p.good, 1));
            assert(p.message.subrange(2, 8) =~= seq!['「'] + p.good + seq!['」']);
            assert(quotes_at(p.message, p.good, 2));
        } else if i == 31 {
            reveal_strlit("一愁莫展");
            reveal_strlit("一筹莫展");
            reveal_strlit("成语应为「一筹莫展」。");
            let p = t[31];
            assert(differs_only_at(p.bad, p.good, 1));
            assert(p.message.subrange(4, 10) =~= seq!['「'] + p.good + seq!['」']);
            assert(quotes_at(p.message, p.good, 4));
        } else if i == 32 {
            reveal_strlit("名信片");
            reveal_strlit("明信片");
            reveal_strlit("应为「明信片」。");
            let p = t[32];
            assert(differs_only_at(p.bad, p.good, 0));
            assert(p.message.subrange(2, 7) =~= seq!['「'] + p.good + seq!['」']);
            assert(quotes_at(p.message, p.good, 2));
        } else if i == 33 {
            reveal_strlit("水笼头");
            reveal_strlit("水龙头");
            reveal_strlit("应为「水龙头」。");
            let p = t[33];
            assert(differs_only_at(p.bad, p.good, 1));
            assert(p.message.subrange(2, 7) =~= seq!['「'] + p.good + seq!['」']);
            assert(quotes_at(p.message, p.good, 2));
        } else if i == 34 {
            reveal_strlit("罗嗦");
            reveal_strlit("啰嗦");
            reveal_strlit("应为「啰嗦」。");
            let p = t[34];
            assert(differs_only_at(p.bad, p.good, 0));
            assert(p.message.subrange(2, 6) =~= seq!['「'] + p.good + seq!['」']);
            assert(quotes_at(p.message, p.good, 2));
        } else if i == 35 {
            reveal_strlit("萎糜不振");
            reveal_strlit("萎靡不振");
            reveal_strlit("应为「萎靡不振」。");
            let p = t[35];
            assert(differs_only_at(p.bad, p.good, 1));
            assert(p.message.subrange(2, 8) =~= seq!['「'] + p.good + seq!['」']);
            assert(quotes_at(p.message, p.good, 2));
        } else if i == 36 {
            reveal_strlit("九洲");
            reveal_strlit("九州");
            reveal_strlit("应为「九州」。");
            let p = t[36];
            assert(differs_only_at(p.bad, p.good, 1));
            assert(p.message.subrange(2, 6) =~= seq!['「'] + p.good + seq!['」']);
            assert(quotes_at(p.message, p.good, 2));
        } else if i == 37 {
            reveal_strlit("重迭");
            reveal_strlit("重叠");
            reveal_strlit("应为「重叠」。");
            let p = t[37];
            assert(differs_only_at(p.bad, p.good, 1));
            assert(p.message.subrange(2, 6) =~= seq!['「'] + p.good + seq!['」']);
            assert(quotes_at(p.message, p.good, 2));
        } else if i == 38 {
            reveal_strlit("好象");
            reveal_strlit("好像");
            reveal_strlit("「象/像」混淆：应为「好像」。");
            let p = t[38];
            assert(differs_only_at(p.bad, p.good, 1));
            assert(p.message.subrange(10, 14) =~= seq!['「'] + p.good + seq!['」']);
            assert(quotes_at(p.message, p.good, 10));
        }
    }
}

/// Each 的/地/得 pair exchanges one of 的, 地, 得 for another; its message names the right one in 「」 and ends with the fixed phrase.
pub proof fn lemma_de_di_de_pairs_ok()
    ensures
        forall|i: int| 0 <= i < de_di_de_table().len() ==> de_pair_ok(#[trigger] de_di_de_table()[i]),
{
    let t = de_di_de_table();
    assert(t.len() == 31);
    assert forall|i: int| 0 <= i < t.len() implies de_pair_ok(#[trigger] t[i]) by {
        if i == 0 {
            reveal_strlit("开心的跑");
            reveal_strlit("开心地跑");
            reveal_strlit("修饰动词时用「地」：开心地跑。");
            let p = t[0];
            assert(differs_only_at(p.bad, p.good, 2));
            assert(p.message.subrange(6, 9) =~= seq!['「'] + seq![p.good[2]] + seq!['」']);
            assert(differs_only_at(p.bad, p.good, 2) && is_de_char(p.bad[2]) && is_de_char(p.good[2]) && quotes_at(p.message, seq![p.good[2]], 6));
            assert(p.message.subrange(10, 15) =~= p.good.push('。'));
        } else if i == 1 {
            reveal_strlit("高兴的说");
            reveal_strlit("高兴地说");
            reveal_strlit("修饰动词时用「地」：高兴地说。");
            let p = t[1];
            assert(differs_only_at(p.bad, p.good, 2));
            assert(p.message.subrange(6, 9) =~= seq!['「'] + seq![p.good[2]] + seq!['」']);
            assert(differs_only_at(p.bad, p.good, 2) && is_de_char(p.bad[2]) && is_de_char(p.good[2]) && quotes_at(p.message, seq![p.good[2]], 6));
            assert(p.message.subrange(10, 15) =~= p.good.push('。'));
        } else if i == 2 {
            reveal_strlit("认真的学习");
            reveal_strlit("认真地学习");
            reveal_strlit("修饰动词时用「地」：认真地学习。");
            let p = t[2];
            assert(differs_only_at(p.bad, p.good, 2));
            assert(p.message.subrange(6, 9) =~= seq!['「'] + seq![p.good[2]] + seq!['」']);
            assert(differs_only_at(p.bad, p.good, 2) && is_de_char(p.bad[2]) && is_de_char(p.good[2]) && quotes_at(p.message, seq![p.good[2]], 6));
            assert(p.message.subrange(10, 16) =~= p.good.push('。'));
        } else if i == 3 {
            reveal_strlit("仔细的检查");
            reveal_strlit("仔细地检查");
            reveal_strlit("修饰动词时用「地」：仔细地检查。");
            let p = t[3];
            assert(differs_only_at(p.bad, p.good, 2));
            assert(p.message.subrange(6, 9) =~= seq!['「'] + seq![p.good[2]] + seq!['」']);
            assert(differs_only_at(p.bad, p.good, 2) && is_de_char(p.bad[2]) && is_de_char(p.good[2]) && quotes_at(p.message, seq![p.good[2]], 6));
            assert(p.message.subrange(10, 16) =~= p.good.push('。'));
        } else if i == 4 {
            reveal_strlit("慢慢的走");
            reveal_strlit("慢慢地走");
            reveal_strlit("修饰动词时用「地」：慢慢地走。");
            let p = t[4];
            assert(differs_only_at(p.bad, p.good, 2));
            assert(p.message.subrange(6, 9) =~= seq!['「'] + seq![p.good[2]] + seq!['」']);
            assert(differs_only_at(p.bad, p.good, 2) && is_de_char(p.bad[2]) && is_de_char(p.good[2]) && quotes_at(p.message, seq![p.good[2]], 6));
            assert(p.message.subrange(10, 15) =~= p.good.push('。'));
        } else if i == 5 {
            reveal_strlit("快速的完成");
            reveal_strlit("快速地完成");
            reveal_strlit("修饰动词时用「地」：快速地完成。");
            let p = t[5];
            assert(differs_only_at(p.bad, p.good, 2));
            assert(p.message.subrange(6, 9) =~= seq!['「'] + seq![p.good[2]] + seq!['」']);
            assert(differs_only_at(p.bad, p.good, 2) && is_de_char(p.bad[2]) && is_de_char(p.good[2]) && quotes_at(p.message, seq![p.good[2]], 6));
            assert(p.message.subrange(10, 16) =~= p.good.push('。'));
        } else if i == 6 {
            reveal_strlit("安静的坐下");
            reveal_strlit("安静地坐下");
            reveal_strlit("修饰动词时用「地」：安静地坐下。");
            let p = t[6];
            assert(differs_only_at(p.bad, p.good, 2));
            assert(p.message.subrange(6, 9) =~= seq!['「'] + seq![p.good[2]] + seq!['」']);
            assert(differs_only_at(p.bad, p.good, 2) && is_de_char(p.bad[2]) && is_de_char(p.good[2]) && quotes_at(p.message, seq![p.good[2]], 6));
            assert(p.message.subrange(10, 16) =~= p.good.push('。'));
        } else if i == 7 {
            reveal_strlit("努力的工作");
            reveal_strlit("努力地工作");
            reveal_strlit("修饰动词时用「地」：努力地工作。");
            let p = t[7];
            assert(differs_only_at(p.bad, p.good, 2));
            assert(p.message.subrange(6, 9) =~= seq!['「'] + seq![p.good[2]] + seq!['」']);
            assert(differs_only_at(p.bad, p.good, 2) && is_de_char(p.bad[2]) && is_de_char(p.good[2]) && quotes_at(p.message, seq![p.good[2]], 6));
            assert(p.message.subrange(10, 16) =~= p.good.push('。'));
        } else if i == 8 {
            reveal_strlit("轻轻的放");
            reveal_strlit("轻轻地放");
            reveal_strlit("修饰动词时用「地」：轻轻地放。");
            let p = t[8];
            assert(differs_only_at(p.bad, p.good, 2));
            assert(p.message.subrange(6, 9) =~= seq!['「'] + seq![p.good[2]] + seq!['」']);
            assert(differs_only_at(p.bad, p.good, 2) && is_de_char(p.bad[2]) && is_de_char(p.good[2]) && quotes_at(p.message, seq![p.good[2]], 6));
            assert(p.message.subrange(10, 15) =~= p.good.push('。'));
        } else if i == 9 {
            reveal_strlit("大声的喊");
            reveal_strlit("大声地喊");
            reveal_strlit("修饰动词时用「地」：大声地喊。");
            let p = t[9];
            assert(differs_only_at(p.bad, p.good, 2));
            assert(p.message.subrange(6, 9) =~= seq!['「'] + seq![p.good[2]] + seq!['」']);
            assert(differs_only_at(p.bad, p.good, 2) && is_de_char(p.bad[2]) && is_de_char(p.good[2]) && quotes_at(p.message, seq![p.good[2]], 6));
            assert(p.message.subrange(10, 15) =~= p.good.push('。'));
        } else if i == 10 {
            reveal_strlit("顺利的完成");
            reveal_strlit("顺利地完成");
            reveal_strlit("修饰动词时用「地」：顺利地完成。");
            let p = t[10];
            assert(differs_only_at(p.bad, p.good, 2));
            assert(p.message.subrange(6, 9) =~= seq!['「'] + seq![p.good[2]] + seq!['」']);
            assert(differs_only_at(p.bad, p.good, 2) && is_de_char(p.bad[2]) && is_de_char(p.good[2]) && quotes_at(p.message, seq![p.good[2]], 6));
            assert(p.message.subrange(10, 16) =~= p.good.push('。'));
        } else if i == 11 {
            reveal_strlit("清楚的说明");
            reveal_strlit("清楚地说明");
            reveal_strlit("修饰动词时用「地」：清楚地说明。");
            let p = t[11];
            assert(differs_only_at(p.bad, p.good, 2));
            assert(p.message.subrange(6, 9) =~= seq!['「'] + seq![p.good[2]] + seq!['」']);
            assert(differs_only_at(p.bad, p.good, 2) && is_de_char(p.bad[2]) && is_de_char(p.good[2]) && quotes_at(p.message, seq![p.good[2]], 6));
            assert(p.message.subrange(10, 16) =~= p.good.push('。'));
        } else if i == 12 {
            reveal_strlit("仔细的观察");
            reveal_strlit("仔细地观察");
            reveal_strlit("修饰动词时用「地」：仔细地观察。");
            let p = t[12];
            assert(differs_only_at(p.bad, p.good, 2));
            assert(p.message.subrange(6, 9) =~= seq!['「'] + seq![p.good[2]] + seq!['」']);
            assert(differs_only_at(p.bad, p.good, 2) && is_de_char(p.bad[2]) && is_de_char(p.good[2]) && quotes_at(p.message, seq![p.good[2]], 6));
            assert(p.message.subrange(10, 16) =~= p.good.push('。'));
        } else if i == 13 {
            reveal_strlit("耐心的等待");
            reveal_strlit("耐心地等待");
            reveal_strlit("修饰动词时用「地」：耐心地等待。");
            let p = t[13];
            assert(differs_only_at(p.bad, p.good, 2));
            assert(p.message.subrange(6, 9) =~= seq!['「'] + seq![p.good[2]] + seq!['」']);
            assert(differs_only_at(p.bad, p.good, 2) && is_de_char(p.bad[2]) && is_de_char(p.good[2]) && quotes_at(p.message, seq![p.good[2]], 6));
            assert(p.message.subrange(10, 16) =~= p.good.push('。'));
        } else if i == 14 {
            reveal_strlit("跑的很快");
            reveal_strlit("跑得很快");
            reveal_strlit("补语前用「得」：跑得很快。");
            let p = t[14];
            assert(differs_only_at(p.bad, p.good, 1));
            assert(p.message.subrange(4, 7) =~= seq!['「'] + seq![p.good[1]] + seq!['」']);
            assert(differs_only_at(p.bad, p.good, 1) && is_de_char(p.bad[1]) && is_de_char(p.good[1]) && quotes_at(p.message, seq![p.good[1]], 4));
            assert(p.message.subrange(8, 13) =~= p.good.push('。'));
        } else if i == 15 {
            reveal_strlit("说的很好");
            reveal_strlit("说得很好");
            reveal_strlit("补语前用「得」：说得很好。");
            let p = t[15];
            assert(differs_only_at(p.bad, p.good, 1));
            assert(p.message.subrange(4, 7) =~= seq!['「'] + seq![p.good[1]] + seq!['」']);
            assert(differs_only_at(p.bad, p.good, 1) && is_de_char(p.bad[1]) && is_de_char(p.good[1]) && quotes_at(p.message, seq![p.good[1]], 4));
            assert(p.message.subrange(8, 13) =~= p.good.push('。'));
        } else if i == 16 {
            reveal_strlit("写的不错");
            reveal_strlit("写得不错");
            reveal_strlit("补语前用「得」：写得不错。");
            let p = t[16];
            assert(differs_only_at(p.bad, p.good, 1));
            assert(p.message.subrange(4, 7) =~= seq!['「'] + seq![p.good[1]] + seq!['」']);
            assert(differs_only_at(p.bad, p.good, 1) && is_de_char(p.bad[1]) && is_de_char(p.good[1]) && quotes_at(p.message, seq![p.good[1]], 4));
            assert(p.message.subrange(8, 13) =~= p.good.push('。'));
        } else if i == 17 {
            reveal_strlit("做的很好");
            reveal_strlit("做得很好");
            reveal_strlit("补语前用「得」：做得很好。");
            let p = t[17];
            assert(differs_only_at(p.bad, p.good, 1));
            assert(p.message.subrange(4, 7) =~= seq!['「'] + seq![p.good[1]] + seq!['」']);
            assert(differs_only_at(p.bad, p.good, 1) && is_de_char(p.bad[1]) && is_de_char(p.good[1]) && quotes_at(p.message, seq![p.good[1]], 4));
            assert(p.message.subrange(8, 13) =~= p.good.push('。'));
        } else if i == 18 {
            reveal_strlit("吃的很香");
            reveal_strlit("吃得很香");
            reveal_strlit("补语前用「得」：吃得很香。");
            let p = t[18];
            assert(differs_only_at(p.bad, p.good, 1));
            assert(p.message.subrange(4, 7) =~= seq!['「'] + seq![p.good[1]] + seq!['」']);
            assert(differs_only_at(p.bad, p.good, 1) && is_de_char(p.bad[1]) && is_de_char(p.good[1]) && quotes_at(p.message, seq![p.good[1]], 4));
            assert(p.message.subrange(8, 13) =~= p.good.push('。'));
        } else if i == 19 {
            reveal_strlit("学的很快");
            reveal_strlit("学得很快");
            reveal_strlit("补语前用「得」：学得很快。");
            let p = t[19];
            assert(differs_only_at(p.bad, p.good, 1));
            assert(p.message.subrange(4, 7) =~= seq!['「'] + seq![p.good[1]] + seq!['」']);
            assert(differs_only_at(p.bad, p.good, 1) && is_de_char(p.bad[1]) && is_de_char(p.good[1]) && quotes_at(p.message, seq![p.good[1]], 4));
            assert(p.message.subrange(8, 13) =~= p.good.push('。'));
        } else if i == 20 {
            reveal_strlit("走的很慢");
            reveal_strlit("走得很慢");
            reveal_strlit("补语前用「得」：走得很慢。");
            let p = t[20];
            assert(differs_only_at(p.bad, p.good, 1));
            assert(p.message.subrange(4, 7) =~= seq!['「'] + seq![p.good[1]] + seq!['」']);
            assert(differs_only_at(p.bad, p.good, 1) && is_de_char(p.bad[1]) && is_de_char(p.good[1]) && quotes_at(p.message, seq![p.good[1]], 4));
            assert(p.message.subrange(8, 13) =~= p.good.push('。'));
        } else if i == 21 {
            reveal_strlit("长的漂亮");
            reveal_strlit("长得漂亮");
            reveal_strlit("补语前用「得」：长得漂亮。");
            let p = t[21];
            assert(differs_only_at(p.bad, p.good, 1));
            assert(p.message.subrange(4, 7) =~= seq!['「'] + seq![p.good[1]] + seq!['」']);
            assert(differs_only_at(p.bad, p.good, 1) && is_de_char(p.bad[1]) && is_de_char(p.good[1]) && quotes_at(p.message, seq![p.good[1]], 4));
            assert(p.message.subrange(8, 13) =~= p.good.push('。'));
        } else if i == 22 {
            reveal_strlit("玩的开心");
            reveal_strlit("玩得开心");
            reveal_strlit("补语前用「得」：玩得开心。");
            let p = t[22];
            assert(differs_only_at(p.bad, p.good, 1));
            assert(p.message.subrange(4, 7) =~= seq!['「'] + seq![p.good[1]] + seq!['」']);
            assert(differs_only_at(p.bad, p.good, 1) && is_de_char(p.bad[1]) && is_de_char(p.good[1]) && quotes_at(p.message, seq![p.good[1]], 4));
            assert(p.message.subrange(8, 13) =~= p.good.push('。'));
        } else if i == 23 {
            reveal_strlit("睡的很晚");
            reveal_strlit("睡得很晚");
            reveal_strlit("补语前用「得」：睡得很晚。");
            let p = t[23];
            assert(differs_only_at(p.bad, p.good, 1));
            assert(p.message.subrange(4, 7) =~= seq!['「'] + seq![p.good[1]] + seq!['」']);
            assert(differs_only_at(p.bad, p.good, 1) && is_de_char(p.bad[1]) && is_de_char(p.good[1]) && quotes_at(p.message, seq![p.good[1]], 4));
            assert(p.message.subrange(8, 13) =~= p.good.push('。'));
        } else if i == 24 {
            reveal_strlit("听的清楚");
            reveal_strlit("听得清楚");
            reveal_strlit("补语前用「得」：听得清楚。");
            let p = t[24];
            assert(differs_only_at(p.bad, p.good, 1));
            assert(p.message.subrange(4, 7) =~= seq!['「'] + seq![p.good[1]] + seq!['」']);
            assert(differs_only_at(p.bad, p.good, 1) && is_de_char(p.bad[1]) && is_de_char(p.good[1]) && quotes_at(p.message, seq![p.good[1]], 4));
            assert(p.message.subrange(8, 13) =~= p.good.push('。'));
        } else if i == 25 {
            reveal_strlit("看的明白");
            reveal_strlit("看得明白");
            reveal_strlit("补语前用「得」：看得明白。");
            let p = t[25];
            assert(differs_only_at(p.bad, p.good, 1));
            assert(p.message.subrange(4, 7) =~= seq!['「'] + seq![p.good[1]] + seq!['」']);
            assert(differs_only_at(p.bad, p.good, 1) && is_de_char(p.bad[1]) && is_de_char(p.good[1]) && quotes_at(p.message, seq![p.good[1]], 4));
            assert(p.message.subrange(8, 13) =~= p.good.push('。'));
        } else if i == 26 {
            reveal_strlit("美丽地风景");
            reveal_strlit("美丽的风景");
            reveal_strlit("修饰名词时用「的」：美丽的风景。");
            let p = t[26];
            assert(differs_only_at(p.bad, p.good, 2));
            assert(p.message.subrange(6, 9) =~= seq!['「'] + seq![p.good[2]] + seq!['」']);
            assert(differs_only_at(p.bad, p.good, 2) && is_de_char(p.bad[2]) && is_de_char(p.good[2]) && quotes_at(p.message, seq![p.good[2]], 6));
            assert(p.message.subrange(10, 16) =~= p.good.push('。'));
        } else if i == 27 {
            reveal_strlit("红色地苹果");
            reveal_strlit("红色的苹果");
            reveal_strlit("修饰名词时用「的」：红色的苹果。");
            let p = t[27];
            assert(differs_only_at(p.bad, p.good, 2));
            assert(p.message.subrange(6, 9) =~= seq!['「'] + seq![p.good[2]] + seq!['」']);
            assert(differs_only_at(p.bad, p.good, 2) && is_de_char(p.bad[2]) && is_de_char(p.good[2]) && quotes_at(p.message, seq![p.good[2]], 6));
            assert(p.message.subrange(10, 16) =~= p.good.push('。'));
        } else if i == 28 {
            reveal_strlit("我地书");
            reveal_strlit("我的书");
            reveal_strlit("修饰名词时用「的」：我的书。");
            let p = t[28];
            assert(differs_only_at(p.bad, p.good, 1));
            assert(p.message.subrange(6, 9) =~= seq!['「'] + seq![p.good[1]] + seq!['」']);
            assert(differs_only_at(p.bad, p.good, 1) && is_de_char(p.bad[1]) && is_de_char(p.good[1]) && quotes_at(p.message, seq![p.good[1]], 6));
            assert(p.message.subrange(10, 14) =~= p.good.push('。'));
        } else if i == 29 {
            reveal_strlit("蓝蓝地天空");
            reveal_strlit("蓝蓝的天空");
            reveal_strlit("修饰名词时用「的」：蓝蓝的天空。");
            let p = t[29];
            assert(differs_only_at(p.bad, p.good, 2));
            assert(p.message.subrange(6, 9) =~= seq!['「'] + seq![p.good[2]] + seq!['」']);
            assert(differs_only_at(p.bad, p.good, 2) && is_de_char(p.bad[2]) && is_de_char(p.good[2]) && quotes_at(p.message, seq![p.good[2]], 6));
            assert(p.message.subrange(10, 16) =~= p.good.push('。'));
        } else if i == 30 {
            reveal_strlit("新鲜地水果");
            reveal_strlit("新鲜的水果");
            reveal_strlit("修饰名词时用「的」：新鲜的水果。");
            let p = t[30];
            assert(differs_only_at(p.bad, p.good, 2));
            assert(p.message.subrange(6, 9) =~= seq!['「'] + seq![p.good[2]] + seq!['」']);
            assert(differs_only_at(p.bad, p.good, 2) && is_de_char(p.bad[2]) && is_de_char(p.good[2]) && quotes_at(p.message, seq![p.good[2]], 6));
            assert(p.message.subrange(10, 16) =~= p.good.push('。'));
        }
    }
}

/// Each confused-word pair exchanges one character and its message names the right one; or it guards a correct phrase.
pub proof fn lemma_word_confusion_pairs_ok()
    ensures
        forall|i: int| 0 <= i < word_confusion_table().len() ==> confusion_pair_ok(#[trigger] word_confusion_table()[i]),
{
    let t = word_confusion_table();
    assert(t.len() == 45);
    assert forall|i: int| 0 <= i < t.len() implies confusion_pair_ok(#[trigger] t[i]) by {
        if i == 0 {
            reveal_strlit("在见");
            reveal_strlit("再见");
            reveal_strlit("「在/再」混淆：告别应为「再见」。");
            let p = t[0];
            assert(differs_only_at(p.bad, p.good, 0));
            assert(p.message[3] == p.good[0]);
        } else if i == 1 {
            reveal_strlit("在见吧");
            reveal_strlit("再见吧");
            reveal_strlit("「在/再」混淆：告别应为「再见」。");
            let p = t[1];
            assert(differs_only_at(p.bad, p.good, 0));
            assert(p.message[3] == p.good[0]);
        } else if i == 2 {
            reveal_strlit("在见一次");
            reveal_strlit("再见一次");
            reveal_strlit("「在/再」混淆：应为「再见」。");
            let p = t[2];
            assert(differs_only_at(p.bad, p.good, 0));
            assert(p.message[3] == p.good[0]);
        } else if i == 3 {
            reveal_strlit("在次");
            reveal_strlit("再次");
            reveal_strlit("「在/再」混淆：应为「再次」。");
            let p = t[3];
            assert(differs_only_at(p.bad, p.good, 0));
            assert(p.message[3] == p.good[0]);
        } else if i == 4 {
            reveal_strlit("在说");
            reveal_strlit("再说");
            reveal_strlit("「在/再」混淆：应为「再说」。");
            let p = t[4];
            assert(differs_only_at(p.bad, p.good, 0));
            assert(p.message[3] == p.good[0]);
        } else if i == 5 {
            reveal_strlit("在考虑一下");
            reveal_strlit("再考虑一下");
            reveal_strlit("「在/再」混淆：应为「再考虑一下」。");
            let p = t[5];
            assert(differs_only_at(p.bad, p.good, 0));
            assert(p.message[3] == p.good[0]);
        } else if i == 6 {
            reveal_strlit("在看一遍");
            reveal_strlit("再看一遍");
            reveal_strlit("「在/再」混淆：应为「再看一遍」。");
            let p = t[6];
            assert(differs_only_at(p.bad, p.good, 0));
            assert(p.message[3] == p.good[0]);
        } else if i == 7 {
            reveal_strlit("在试一次");
            reveal_strlit("再试一次");
            reveal_strlit("「在/再」混淆：应为「再试一次」。");
            let p = t[7];
            assert(differs_only_at(p.bad, p.good, 0));
            assert(p.message[3] == p.good[0]);
        } else if i == 8 {
            reveal_strlit("做业");
            reveal_strlit("作业");
            reveal_strlit("「做/作」混淆：应为「作业」。");
            let p = t[8];
            assert(differs_only_at(p.bad, p.good, 0));
            assert(p.message[3] == p.good[0]);
        } else if i == 9 {
            reveal_strlit("作饭");
            reveal_strlit("做饭");
            reveal_strlit("「做/作」混淆：应为「做饭」。");
            let p = t[9];
            assert(differs_only_at(p.bad, p.good, 0));
            assert(p.message[1] == p.good[0]);
        } else if i == 10 {
            reveal_strlit("作事");
            reveal_strlit("做事");
            reveal_strlit("「做/作」混淆：应为「做事」。");
            let p = t[10];
            assert(differs_only_at(p.bad, p.good, 0));
            assert(p.message[1] == p.good[0]);
        } else if i == 11 {
            reveal_strlit("作梦");
            reveal_strlit("做梦");
            reveal_strlit("「做/作」混淆：应为「做梦」。");
            let p = t[11];
            assert(differs_only_at(p.bad, p.good, 0));
            assert(p.message[1] == p.good[0]);
        } else if i == 12 {
            reveal_strlit("作工");
            reveal_strlit("做工");
            reveal_strlit("「做/作」混淆：应为「做工」。");
            let p = t[12];
            assert(differs_only_at(p.bad, p.good, 0));
            assert(p.message[1] == p.good[0]);
        } else if i == 13 {
            reveal_strlit("做家");
            reveal_strlit("作家");
            reveal_strlit("「做/作」混淆：应为「作家」。");
            let p = t[13];
            assert(differs_only_at(p.bad, p.good, 0));
            assert(p.message[3] == p.good[0]);
        } else if i == 14 {
            reveal_strlit("做品");
            reveal_strlit("作品");
            reveal_strlit("「做/作」混淆：应为「作品」。");
            let p = t[14];
            assert(differs_only_at(p.bad, p.good, 0));
            assert(p.message[3] == p.good[0]);
        } else if i == 15 {
            reveal_strlit("做用");
            reveal_strlit("作用");
            reveal_strlit("「做/作」混淆：应为「作用」。");
            let p = t[15];
            assert(differs_only_at(p.bad, p.good, 0));
            assert(p.message[3] == p.good[0]);
        } else if i == 16 {
            reveal_strlit("做者");
            reveal_strlit("作者");
            reveal_strlit("「做/作」混淆：应为「作者」。");
            let p = t[16];
            assert(differs_only_at(p.bad, p.good, 0));
            assert(p.message[3] == p.good[0]);
        } else if i == 17 {
            reveal_strlit("做文");
            reveal_strlit("作文");
            reveal_strlit("「做/作」混淆：应为「作文」。");
            let p = t[17];
            assert(differs_only_at(p.bad, p.good, 0));
            assert(p.message[3] == p.good[0]);
        } else if i == 18 {
            reveal_strlit("以经");
            reveal_strlit("已经");
            reveal_strlit("「以/已」混淆：应为「已经」。");
            let p = t[18];
            assert(differs_only_at(p.bad, p.good, 0));
            assert(p.message[3] == p.good[0]);
        } else if i == 19 {
            reveal_strlit("以经完成");
            reveal_strlit("已经完成");
            reveal_strlit("「以/已」混淆：应为「已经」。");
            let p = t[19];
            assert(differs_only_at(p.bad, p.good, 0));
            assert(p.message[3] == p.good[0]);
        } else if i == 20 {
            reveal_strlit("以经是");
            reveal_strlit("已经是");
            reveal_strlit("「以/已」混淆：应为「已经」。");
            let p = t[20];
            assert(differs_only_at(p.bad, p.good, 0));
            assert(p.message[3] == p.good[0]);
        } else if i == 21 {
            reveal_strlit("已后");
            reveal_strlit("以后");
            reveal_strlit("「以/已」混淆：表示之后时间应为「以后」。");
            let p = t[21];
            assert(differs_only_at(p.bad, p.good, 0));
            assert(p.message[1] == p.good[0]);
        } else if i == 22 {
            reveal_strlit("已及");
            reveal_strlit("以及");
            reveal_strlit("「以/已」混淆：应为「以及」。");
            let p = t[22];
            assert(differs_only_at(p.bad, p.good, 0));
            assert(p.message[1] == p.good[0]);
        } else if i == 23 {
            reveal_strlit("已免");
            reveal_strlit("以免");
            reveal_strlit("「以/已」混淆：应为「以免」。");
            let p = t[23];
            assert(differs_only_at(p.bad, p.good, 0));
            assert(p.message[1] == p.good[0]);
        } else if i == 24 {
            reveal_strlit("好象");
            reveal_strlit("好像");
            reveal_strlit("「象/像」混淆：应为「好像」。");
            let p = t[24];
            assert(differs_only_at(p.bad, p.good, 1));
            assert(p.message[3] == p.good[1]);
        } else if i == 25 {
            reveal_strlit("成象");
            reveal_strlit("成像");
            reveal_strlit("技术语境中常为「成像」。");
            let p = t[25];
            assert(differs_only_at(p.bad, p.good, 1));
            assert(p.message[9] == p.good[1]);
        } else if i == 26 {
            reveal_strlit("录象");
            reveal_strlit("录像");
            reveal_strlit("应为「录像」。");
            let p = t[26];
            assert(differs_only_at(p.bad, p.good, 1));
            assert(p.message[4] == p.good[1]);
        } else if i == 27 {
            reveal_strlit("照象");
            reveal_strlit("照像");
            reveal_strlit("应为「照像」/「照相」。");
            let p = t[27];
            assert(differs_only_at(p.bad, p.good, 1));
            assert(p.message[4] == p.good[1]);
        } else if i == 28 {
            reveal_strlit("象素");
            reveal_strlit("像素");
            reveal_strlit("应为「像素」。");
            let p = t[28];
            assert(differs_only_at(p.bad, p.good, 0));
            assert(p.message[3] == p.good[0]);
        } else if i == 29 {
            reveal_strlit("肖象");
            reveal_strlit("肖像");
            reveal_strlit("应为「肖像」。");
            let p = t[29];
            assert(differs_only_at(p.bad, p.good, 1));
            assert(p.message[4] == p.good[1]);
        } else if i == 30 {
            reveal_strlit("必需要");
            reveal_strlit("必须要");
            reveal_strlit("「须/需」冗余：宜用「必须要」或「需要」。");
            let p = t[30];
            assert(differs_only_at(p.bad, p.good, 1));
            assert(p.message[1] == p.good[1]);
        } else if i == 31 {
            reveal_strlit("需须");
            reveal_strlit("必须");
            reveal_strlit("「须/需」混淆：应为「必须」。");
            let p = t[31];
            assert(differs_only_at(p.bad, p.good, 0));
            assert(p.message[11] == p.good[0]);
        } else if i == 32 {
            reveal_strlit("须要");
            reveal_strlit("需要");
            reveal_strlit("「须/需」混淆：此处宜用「需要」。");
            let p = t[32];
            assert(differs_only_at(p.bad, p.good, 0));
            assert(p.message[3] == p.good[0]);
        } else if i == 33 {
            reveal_strlit("必须要");
            reveal_strlit("必须要");
            reveal_strlit("「必须要」用法正确。");
            assert(t[33].bad == t[33].good);
        } else if i == 34 {
            reveal_strlit("必需要求");
            reveal_strlit("必须要求");
            reveal_strlit("「须/需」：宜检查是否应为「必须」。");
            let p = t[34];
            assert(differs_only_at(p.bad, p.good, 1));
            assert(p.message[1] == p.good[1]);
        } else if i == 35 {
            reveal_strlit("即然");
            reveal_strlit("既然");
            reveal_strlit("「即/既」混淆：应为「既然」。");
            let p = t[35];
            assert(differs_only_at(p.bad, p.good, 0));
            assert(p.message[3] == p.good[0]);
        } else if i == 36 {
            reveal_strlit("既使");
            reveal_strlit("即使");
            reveal_strlit("「即/既」混淆：应为「即使」。");
            let p = t[36];
            assert(differs_only_at(p.bad, p.good, 0));
            assert(p.message[1] == p.good[0]);
        } else if i == 37 {
            reveal_strlit("登陆网站");
            reveal_strlit("登录网站");
            reveal_strlit("上网操作为「登录」，不是「登陆」。");
            let p = t[37];
            assert(differs_only_at(p.bad, p.good, 1));
            assert(p.message[7] == p.good[1]);
        } else if i == 38 {
            reveal_strlit("登陆系统");
            reveal_strlit("登录系统");
            reveal_strlit("系统操作为「登录」，不是「登陆」。");
            let p = t[38];
            assert(differs_only_at(p.bad, p.good, 1));
            assert(p.message[7] == p.good[1]);
        } else if i == 39 {
            reveal_strlit("登陆账号");
            reveal_strlit("登录账号");
            reveal_strlit("操作为「登录」，不是「登陆」。");
            let p = t[39];
            assert(differs_only_at(p.bad, p.good, 1));
            assert(p.message[5] == p.good[1]);
        } else if i == 40 {
            reveal_strlit("登陆游戏");
            reveal_strlit("登录游戏");
            reveal_strlit("操作为「登录」，不是「登陆」。");
            let p = t[40];
            assert(differs_only_at(p.bad, p.good, 1));
            assert(p.message[5] == p.good[1]);
        } else if i == 41 {
            reveal_strlit("帐号");
            reveal_strlit("账号");
            reveal_strlit("现代汉语推荐「账号」。");
            let p = t[41];
            assert(differs_only_at(p.bad, p.good, 0));
            assert(p.message[7] == p.good[0]);
        } else if i == 42 {
            reveal_strlit("帐号密码");
            reveal_strlit("账号密码");
            reveal_strlit("现代汉语推荐「账号」。");
            let p = t[42];
            assert(differs_only_at(p.bad, p.good, 0));
            assert(p.message[7] == p.good[0]);
        } else if i == 43 {
            reveal_strlit("帐户");
            reveal_strlit("账户");
            reveal_strlit("现代汉语推荐「账户」。");
            let p = t[43];
            assert(differs_only_at(p.bad, p.good, 0));
            assert(p.message[7] == p.good[0]);
        } else if i == 44 {
            reveal_strlit("其它的");
            reveal_strlit("其他的");
            reveal_strlit("「其它/其他」：指人/事物均可，现代常用「其他」。");
            let p = t[44];
            assert(differs_only_at(p.bad, p.good, 1));
            assert(p.message[5] == p.good[1]);
        }
    }
}

/// Each repetition pair shortens the text to how it begins or ends.
pub proof fn lemma_redundancy_pairs_ok()
    ensures
        forall|i: int| 0 <= i < redundancy_table().len() ==> redundancy_pair_ok(#[trigger] redundancy_table()[i]),
{
    let t = redundancy_table();
    assert(t.len() == 9);
    assert forall|i: int| 0 <= i < t.len() implies redundancy_pair_ok(#[trigger] t[i]) by {
        if i == 0 {
            reveal_strlit("的的");
            reveal_strlit("的");
            reveal_strlit("多余重复：连续两个「的」。");
            let p = t[0];
            assert(p.bad.take(1) =~= p.good);
        } else if i == 1 {
            reveal_strlit("了了");
            reveal_strlit("了");
            reveal_strlit("多余重复：连续两个「了」。");
            let p = t[1];
            assert(p.bad.take(1) =~= p.good);
        } else if i == 2 {
            reveal_strlit("是是");
            reveal_strlit("是");
            reveal_strlit("多余重复：连续两个「是」。");
            let p = t[2];
            assert(p.bad.take(1) =~= p.good);
        } else if i == 3 {
            reveal_strlit("的话的话");
            reveal_strlit("的话");
            reveal_strlit("多余重复。");
            let p = t[3];
            assert(p.bad.take(2) =~= p.good);
        } else if i == 4 {
            reveal_strlit("非常非常非常");
            reveal_strlit("非常");
            reveal_strlit("程度副词过度重复，可精简。");
            let p = t[4];
            assert(p.bad.take(2) =~= p.good);
        } else if i == 5 {
            reveal_strlit("必须须");
            reveal_strlit("必须");
            reveal_strlit("重复用字：应为「必须」。");
            let p = t[5];
            assert(p.bad.take(2) =~= p.good);
        } else if i == 6 {
            reveal_strlit("需需要");
            reveal_strlit("需要");
            reveal_strlit("重复用字：应为「需要」。");
            let p = t[6];
            assert(p.bad.skip(1) =~= p.good);
        } else if i == 7 {
            reveal_strlit("进行进行");
            reveal_strlit("进行");
            reveal_strlit("多余重复。");
            let p = t[7];
            assert(p.bad.take(2) =~= p.good);
        } else if i == 8 {
            reveal_strlit("可以可以");
            reveal_strlit("可以");
            reveal_strlit("多余重复。");
            let p = t[8];
            assert(p.bad.take(2) =~= p.good);
        }
    }
}

} // verus!
