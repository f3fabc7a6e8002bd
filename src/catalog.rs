use vstd::prelude::*;

verus! {
/// One display category: its header and its rows of resource identifiers, in display order.
pub struct CatalogGroup {
    pub header: &'static str,
    pub rows: Vec<Vec<&'static str>>,
}
/// The display color text of each resource identifier, in table order.
pub open spec fn color_table() -> Seq<(&'static str, &'static str)> {
    seq![
        ("empty", "rgba(0,0,0,0)"),
        ("energy", "rgb(255,242,0)"),
        ("battery", "rgb(255,242,0)"),
        ("Z", "rgb(247, 212, 146)"),
        ("L", "rgb(108, 240, 169)"),
        ("U", "rgb(76, 167, 229)"),
        ("K", "rgb(218, 107, 245)"),
        ("X", "rgb(255, 192, 203)"),
        ("G", "rgb(255,255,255)"),
        ("zynthium_bar", "rgb(247, 212, 146)"),
        ("lemergium_bar", "rgb(108, 240, 169)"),
        ("utrium_bar", "rgb(76, 167, 229)"),
        ("keanium_bar", "rgb(218, 107, 245)"),
        ("purifier", "rgb(255, 192, 203)"),
        ("ghodium_melt", "rgb(255,255,255)"),
        ("power", "rgb(224,90,90)"),
        ("ops", "rgb(224,90,90)"),
        ("composite", "#ccc"),
        ("crystal", "#ccc"),
        ("liquid", "#ccc"),
        ("device", "rgb(76, 167,229)"),
        ("circuit", "rgb(76, 167,229)"),
        ("microchip", "rgb(76, 167,229)"),
        ("transistor", "rgb(76, 167,229)"),
        ("switch", "rgb(76, 167,229)"),
        ("wire", "rgb(76, 167,229)"),
        ("silicon", "rgb(76, 167,229)"),
        ("machine", "rgb(247,212,146)"),
        ("hydraulics", "rgb(247,212,146)"),
        ("frame", "rgb(247,212,146)"),
        ("fixtures", "rgb(247,212,146)"),
        ("tube", "rgb(247,212,146)"),
        ("alloy", "rgb(247,212,146)"),
        ("metal", "rgb(247,212,146)"),
        ("essence", "rgb(218,107,245)"),
        ("emanation", "rgb(218,107,245)"),
        ("spirit", "rgb(218,107,245)"),
        ("extract", "rgb(218,107,245)"),
        ("concentrate", "rgb(218,107,245)"),
        ("condensate", "rgb(218,107,245)"),
        ("mist", "rgb(218,107,245)"),
        ("organism", "rgb(108,240,169)"),
        ("organoid", "rgb(108,240,169)"),
        ("muscle", "rgb(108,240,169)"),
        ("tissue", "rgb(108,240,169)"),
        ("phlegm", "rgb(108,240,169)"),
        ("cell", "rgb(108,240,169)"),
        ("biomass", "rgb(108,240,169)"),
        ("OH", "#ccc"),
        ("ZK", "#ccc"),
        ("UL", "#ccc"),
        ("UH", "rgb(76, 167,229)"),
        ("UH2O", "rgb(76, 167,229)"),
        ("XUH2O", "rgb(76, 167,229)"),
        ("UO", "rgb(76, 167,229)"),
        ("UHO2", "rgb(76, 167,229)"),
        ("XUHO2", "rgb(76, 167,229)"),
        ("ZH", "rgb(247,212,146)"),
        ("ZH2O", "rgb(247,212,146)"),
        ("XZH2O", "rgb(247,212,146)"),
        ("ZO", "rgb(247,212,146)"),
        ("ZHO2", "rgb(247,212,146)"),
        ("XZHO2", "rgb(247,212,146)"),
        ("KH", "rgb(218,107,245)"),
        ("KH2O", "rgb(218,107,245)"),
        ("XKH2O", "rgb(218,107,245)"),
        ("KO", "rgb(218,107,245)"),
        ("KHO2", "rgb(218,107,245)"),
        ("XKHO2", "rgb(218,107,245)"),
        ("LH", "rgb(108,240,169)"),
        ("LH2O", "rgb(108,240,169)"),
        ("XLH2O", "rgb(108,240,169)"),
        ("LO", "rgb(108,240,169)"),
        ("LHO2", "rgb(108,240,169)"),
        ("XLHO2", "rgb(108,240,169)"),
        ("GH", "rgb(255,255,255)"),
        ("GH2O", "rgb(255,255,255)"),
        ("XGH2O", "rgb(255,255,255)"),
        ("GO", "rgb(255,255,255)"),
        ("GHO2", "rgb(255,255,255)"),
        ("XGHO2", "rgb(255,255,255)"),
        ("H", "#ccc"),
        ("O", "#ccc"),
        ("oxidant", "#ccc"),
        ("reductant", "#ccc"),
        ("utrium", "rgb(76, 167,229)"),
        ("lemergium", "rgb(108, 240, 169)"),
        ("keanium", "rgb(218, 107, 245)"),
        ("zynthium", "rgb(247, 212, 146)"),
        ("ghodium", "rgb(255,255,255)"),
    ]
}

/// The display color text of each resource identifier.
pub fn res_color_map() -> (r: Vec<(&'static str, &'static str)>)
    ensures
        r@ == color_table(),
{
    let r = vec![
        ("empty", "rgba(0,0,0,0)"),
        ("energy", "rgb(255,242,0)"),
        ("battery", "rgb(255,242,0)"),
        ("Z", "rgb(247, 212, 146)"),
        ("L", "rgb(108, 240, 169)"),
        ("U", "rgb(76, 167, 229)"),
        ("K", "rgb(218, 107, 245)"),
        ("X", "rgb(255, 192, 203)"),
        ("G", "rgb(255,255,255)"),
        ("zynthium_bar", "rgb(247, 212, 146)"),
        ("lemergium_bar", "rgb(108, 240, 169)"),
        ("utrium_bar", "rgb(76, 167, 229)"),
        ("keanium_bar", "rgb(218, 107, 245)"),
        ("purifier", "rgb(255, 192, 203)"),
        ("ghodium_melt", "rgb(255,255,255)"),
        ("power", "rgb(224,90,90)"),
        ("ops", "rgb(224,90,90)"),
        ("composite", "#ccc"),
        ("crystal", "#ccc"),
        ("liquid", "#ccc"),
        ("device", "rgb(76, 167,229)"),
        ("circuit", "rgb(76, 167,229)"),
        ("microchip", "rgb(76, 167,229)"),
        ("transistor", "rgb(76, 167,229)"),
        ("switch", "rgb(76, 167,229)"),
        ("wire", "rgb(76, 167,229)"),
        ("silicon", "rgb(76, 167,229)"),
        ("machine", "rgb(247,212,146)"),
        ("hydraulics", "rgb(247,212,146)"),
        ("frame", "rgb(247,212,146)"),
        ("fixtures", "rgb(247,212,146)"),
        ("tube", "rgb(247,212,146)"),
        ("alloy", "rgb(247,212,146)"),
        ("metal", "rgb(247,212,146)"),
        ("essence", "rgb(218,107,245)"),
        ("emanation", "rgb(218,107,245)"),
        ("spirit", "rgb(218,107,245)"),
        ("extract", "rgb(218,107,245)"),
        ("concentrate", "rgb(218,107,245)"),
        ("condensate", "rgb(218,107,245)"),
        ("mist", "rgb(218,107,245)"),
        ("organism", "rgb(108,240,169)"),
        ("organoid", "rgb(108,240,169)"),
        ("muscle", "rgb(108,240,169)"),
        ("tissue", "rgb(108,240,169)"),
        ("phlegm", "rgb(108,240,169)"),
        ("cell", "rgb(108,240,169)"),
        ("biomass", "rgb(108,240,169)"),
        ("OH", "#ccc"),
        ("ZK", "#ccc"),
        ("UL", "#ccc"),
        ("UH", "rgb(76, 167,229)"),
        ("UH2O", "rgb(76, 167,229)"),
        ("XUH2O", "rgb(76, 167,229)"),
        ("UO", "rgb(76, 167,229)"),
        ("UHO2", "rgb(76, 167,229)"),
        ("XUHO2", "rgb(76, 167,229)"),
        ("ZH", "rgb(247,212,146)"),
        ("ZH2O", "rgb(247,212,146)"),
        ("XZH2O", "rgb(247,212,146)"),
        ("ZO", "rgb(247,212,146)"),
        ("ZHO2", "rgb(247,212,146)"),
        ("XZHO2", "rgb(247,212,146)"),
        ("KH", "rgb(218,107,245)"),
        ("KH2O", "rgb(218,107,245)"),
        ("XKH2O", "rgb(218,107,245)"),
        ("KO", "rgb(218,107,245)"),
        ("KHO2", "rgb(218,107,245)"),
        ("XKHO2", "rgb(218,107,245)"),
        ("LH", "rgb(108,240,169)"),
        ("LH2O", "rgb(108,240,169)"),
        ("XLH2O", "rgb(108,240,169)"),
        ("LO", "rgb(108,240,169)"),
        ("LHO2", "rgb(108,240,169)"),
        ("XLHO2", "rgb(108,240,169)"),
        ("GH", "rgb(255,255,255)"),
        ("GH2O", "rgb(255,255,255)"),
        ("XGH2O", "rgb(255,255,255)"),
        ("GO", "rgb(255,255,255)"),
        ("GHO2", "rgb(255,255,255)"),
        ("XGHO2", "rgb(255,255,255)"),
        ("H", "#ccc"),
        ("O", "#ccc"),
        ("oxidant", "#ccc"),
        ("reductant", "#ccc"),
        ("utrium", "rgb(76, 167,229)"),
        ("lemergium", "rgb(108, 240, 169)"),
        ("keanium", "rgb(218, 107, 245)"),
        ("zynthium", "rgb(247, 212, 146)"),
        ("ghodium", "rgb(255,255,255)"),
    ];
    assert(r@ =~= color_table());
    r
}

fn row(ids: &[&'static str]) -> (r: Vec<&'static str>)
    ensures
        r@ == ids@,
{
    let mut r: Vec<&'static str> = Vec::new();
    let mut i: usize = 0;
    while i < ids.len()
        invariant
            i <= ids@.len(),
            r@ == ids@.take(i as int),
        decreases ids@.len() - i,
    {
        r.push(ids[i]);
        assert(ids@.take(i + 1) =~= ids@.take(i as int).push(ids@[i as int]));
        i = i + 1;
    }
    assert(ids@.take(ids@.len() as int) =~= ids@);
    r
}

/// The display categories, each with its header and rows of identifiers.
pub open spec fn is_catalog(r: Seq<CatalogGroup>) -> bool {
    &&& r.len() == 5
    &&& r[0].header@ == "baseRes"@
    &&& r[0].rows@.len() == 1
    &&& r[0].rows@[0]@ == seq!["energy", "U", "L", "K", "Z", "X", "O", "H", "G"]
    &&& r[1].header@ == "barsRes"@
    &&& r[1].rows@.len() == 1
    &&& r[1].rows@[0]@ == seq!["battery", "utrium_bar", "lemergium_bar", "keanium_bar", "zynthium_bar", "purifier", "oxidant", "reductant", "ghodium_melt"]
    &&& r[2].header@ == "powerRes"@
    &&& r[2].rows@.len() == 1
    &&& r[2].rows@[0]@ == seq!["power", "ops"]
    &&& r[3].header@ == "goods"@
    &&& r[3].rows@.len() == 5
    &&& r[3].rows@[0]@ == seq!["composite", "crystal", "liquid"]
    &&& r[3].rows@[1]@ == seq!["silicon", "wire", "switch", "transistor", "microchip", "circuit", "device"]
    &&& r[3].rows@[2]@ == seq!["metal", "alloy", "tube", "fixtures", "frame", "hydraulics", "machine"]
    &&& r[3].rows@[3]@ == seq!["mist", "condensate", "concentrate", "extract", "spirit", "emanation", "essence"]
    &&& r[3].rows@[4]@ == seq!["biomass", "cell", "phlegm", "tissue", "muscle", "organoid", "organism"]
    &&& r[4].header@ == "labRes"@
    &&& r[4].rows@.len() == 6
    &&& r[4].rows@[0]@ == seq!["OH", "ZK", "UL", "G"]
    &&& r[4].rows@[1]@ == seq!["UH", "UH2O", "XUH2O", "UO", "UHO2", "XUHO2", "utrium"]
    &&& r[4].rows@[2]@ == seq!["ZH", "ZH2O", "XZH2O", "ZO", "ZHO2", "XZHO2", "zynthium"]
    &&& r[4].rows@[3]@ == seq!["KH", "KH2O", "XKH2O", "KO", "KHO2", "XKHO2", "keanium"]
    &&& r[4].rows@[4]@ == seq!["LH", "LH2O", "XLH2O", "LO", "LHO2", "XLHO2", "lemergium"]
    &&& r[4].rows@[5]@ == seq!["GH", "GH2O", "XGH2O", "GO", "GHO2", "XGHO2", "ghodium"]
}

/// The display categories in their fixed order: base elements, bars, power, the compound
/// tiers, the lab reagents.
pub fn catalog() -> (r: Vec<CatalogGroup>)
    ensures
        is_catalog(r@),
{
    let mut r: Vec<CatalogGroup> = Vec::new();
    let mut rows: Vec<Vec<&'static str>> = Vec::new();
    rows.push(row(&["energy", "U", "L", "K", "Z", "X", "O", "H", "G"]));
    r.push(CatalogGroup { header: "baseRes", rows });
    let mut rows: Vec<Vec<&'static str>> = Vec::new();
    rows.push(row(&["battery", "utrium_bar", "lemergium_bar", "keanium_bar", "zynthium_bar", "purifier", "oxidant", "reductant", "ghodium_melt"]));
    r.push(CatalogGroup { header: "barsRes", rows });
    let mut rows: Vec<Vec<&'static str>> = Vec::new();
    rows.push(row(&["power", "ops"]));
    r.push(CatalogGroup { header: "powerRes", rows });
    let mut rows: Vec<Vec<&'static str>> = Vec::new();
    rows.push(row(&["composite", "crystal", "liquid"]));
    rows.push(row(&["silicon", "wire", "switch", "transistor", "microchip", "circuit", "device"]));
    rows.push(row(&["metal", "alloy", "tube", "fixtures", "frame", "hydraulics", "machine"]));
    rows.push(row(&["mist", "condensate", "concentrate", "extract", "spirit", "emanation", "essence"]));
    rows.push(row(&["biomass", "cell", "phlegm", "tissue", "muscle", "organoid", "organism"]));
    r.push(CatalogGroup { header: "goods", rows });
    let mut rows: Vec<Vec<&'static str>> = Vec::new();
    rows.push(row(&["OH", "ZK", "UL", "G"]));
    rows.push(row(&["UH", "UH2O", "XUH2O", "UO", "UHO2", "XUHO2", "utrium"]));
    rows.push(row(&["ZH", "ZH2O", "XZH2O", "ZO", "ZHO2", "XZHO2", "zynthium"]));
    rows.push(row(&["KH", "KH2O", "XKH2O", "KO", "KHO2", "XKHO2", "keanium"]));
    rows.push(row(&["LH", "LH2O", "XLH2O", "LO", "LHO2", "XLHO2", "lemergium"]));
    rows.push(row(&["GH", "GH2O", "XGH2O", "GO", "GHO2", "XGHO2", "ghodium"]));
    r.push(CatalogGroup { header: "labRes", rows });
    r
}

} // verus!
