use wty::cli::{parse_tuple, trim};
use wty::lang::{Edition, EditionSpec, Lang};

#[test]
fn help_texts() {
    assert_eq!(Lang::help_isos(), "Supported isos: af | sq | arz | afb | ar | apc | ajp | hy | xcl | rup | as | aii | ast | az | ba | eu | be | bn | bcl | bg | my | ca | ceb | zh | yue | cmn | cim | cop | kw | crh | cs | zlw-ocs | da | nl | dum | egy | en | enm | ang | simple | eo | et | fo | fi | fr | frm | fro | gl | ka | de | goh | got | el | grc | gu | haw | he | hi | hu | is | io | id | izh | ia | ga | sga | it | ja | jv | kn | csb | kk | kix | km | ko | ku | kmr | ky | lld | lo | la | lv | lzz | lt | liv | lb | mk | mg | ms | ml | mt | gv | mr | mn | mi | nah | nv | nrf | se | no | nb | nn | oc | or | cu | non | pi | rsk | fa | pdt | pl | zlw-opl | pt | urj-fin-pro | gem-pro | sla-pro | gmw-pro | pa | ro | ru | sa | sco | gd | sh | scn | sk | sl | dsb | es | su | sw | sv | syc | tl | tg | ta | te | th | bo | tok | tr | ota | uk | ur | ug | uz | vec | vi | vo | vot | cy | ady | fy | sah | yi | yo | zu");
    assert_eq!(Lang::help_isos_coloured(), "Supported isos: af | sq | arz | afb | ar | apc | ajp | hy | xcl | rup | as | aii | ast | az | ba | eu | be | bn | bcl | bg | my | ca | ceb | \u{1b}[32mzh\u{1b}[0m | yue | cmn | cim | cop | kw | crh | \u{1b}[32mcs\u{1b}[0m | zlw-ocs | da | \u{1b}[32mnl\u{1b}[0m | dum | egy | \u{1b}[32men\u{1b}[0m | enm | ang | \u{1b}[32msimple\u{1b}[0m | eo | et | fo | fi | \u{1b}[32mfr\u{1b}[0m | frm | fro | gl | ka | \u{1b}[32mde\u{1b}[0m | goh | got | \u{1b}[32mel\u{1b}[0m | grc | gu | haw | he | hi | hu | is | io | \u{1b}[32mid\u{1b}[0m | izh | ia | ga | sga | \u{1b}[32mit\u{1b}[0m | \u{1b}[32mja\u{1b}[0m | jv | kn | csb | kk | kix | km | \u{1b}[32mko\u{1b}[0m | \u{1b}[32mku\u{1b}[0m | kmr | ky | lld | lo | la | lv | lzz | lt | liv | lb | mk | mg | \u{1b}[32mms\u{1b}[0m | ml | mt | gv | mr | mn | mi | nah | nv | nrf | se | no | nb | nn | oc | or | cu | non | pi | rsk | fa | pdt | \u{1b}[32mpl\u{1b}[0m | zlw-opl | \u{1b}[32mpt\u{1b}[0m | urj-fin-pro | gem-pro | sla-pro | gmw-pro | pa | ro | \u{1b}[32mru\u{1b}[0m | sa | sco | gd | sh | scn | sk | sl | dsb | \u{1b}[32mes\u{1b}[0m | su | sw | sv | syc | tl | tg | ta | te | \u{1b}[32mth\u{1b}[0m | bo | tok | \u{1b}[32mtr\u{1b}[0m | ota | uk | ur | ug | uz | vec | \u{1b}[32mvi\u{1b}[0m | vo | vot | cy | ady | fy | sah | yi | yo | zu");
    assert_eq!(Lang::help_editions(), "Supported editions: zh | cs | nl | en | simple | fr | de | el | id | it | ja | ko | ku | ms | pl | pt | ru | es | th | tr | vi");
}

#[test]
fn unsupported_code_messages() {
    let err = Lang::from_str("xx-nope").unwrap_err();
    assert_eq!(err, format!("unsupported iso code 'xx-nope'\n{}", Lang::help_isos()));
    assert_eq!(Edition::from_str("Grc").unwrap_err(), "invalid edition 'Grc'");
    assert_eq!(EditionSpec::from_str("Grc").unwrap_err(), "invalid edition 'Grc'");
}

#[test]
fn filter_errors() {
    assert_eq!(parse_tuple("a,b,c").unwrap_err(), "expected two comma-separated values");
    assert_eq!(
        parse_tuple("foo , bar").unwrap_err(),
        "unknown filter key 'foo'. Choose between: lang_code | word | pos"
    );
}

#[test]
fn whitespace_as_std_has_it() {
    for u in 0u32..0x3100 {
        if let Some(c) = char::from_u32(u) {
            assert_eq!(trim(&c.to_string()).is_empty(), c.is_whitespace(), "U+{u:04X}");
        }
    }
}

#[test]
fn codes_read_back() {
    for l in Lang::all() {
        assert_eq!(Lang::from_str(l.as_ref()), Ok(l));
        assert_eq!(Lang::from_str(&l.as_ref().to_uppercase()), Ok(l));
    }
    for e in Edition::all() {
        assert_eq!(Edition::from_str(e.as_ref()), Ok(e));
    }
}
