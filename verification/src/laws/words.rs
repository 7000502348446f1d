//! Words that documents are made of are told apart by their letters.
use vstd::prelude::*;

verus! {

/// A number that a few letters of a word make. Words with different numbers differ.
pub open spec fn mark(word: Seq<char>) -> int {
    let n = word.len() as int;
    n + 64 * (word[0] as int) + 16384 * (word[1] as int) + 4194304 * (word[n - 1] as int) + 1073741824
        * (word[n - 2] as int) + 274877906944 * (word[n / 2] as int)
}

/// The words differ from one another.
pub proof fn lemma_words_differ()
    ensures
        mark("error"@) == 31455746758981,
        mark("message"@) == 31721979992903,
        mark("type"@) == 30907010276612,
        mark("param"@) == 31440693124101,
        mark("code"@) == 27595590326468,
        mark("id"@) == 27600954661442,
        mark("object"@) == 27869457193926,
        mark("created"@) == 26772026202311,
        mark("model"@) == 27596693429061,
        mark("choices"@) == 28971112208583,
        mark("index"@) == 27596743744069,
        mark("role"@) == 29803203517572,
        mark("content"@) == 32004437170375,
        mark("finish_reason"@) == 26233049602445,
        mark("status"@) == 32011949251782,
        mark("output"@) == 30912441834438,
        mark("text"@) == 33114686053636,
        mark("url"@) == 31458942819651,
        mark("detail"@) == 26776354511110,
        mark("method"@) == 28706908756806,
        mark("params"@) == 26780678773766,
        mark("clientInfo"@) == 31995826215114,
        mark("name"@) == 30079154936708,
        mark("title"@) == 32002226674949,
        mark("version"@) == 31730607676807,
        mark("ephemeral"@) == 30066299640137,
        mark("sandbox"@) == 27607480949959,
        mark("threadId"@) == 26741961268488,
        mark("sandboxPolicy"@) == 33092158381261,
        mark("input"@) == 30912441719365,
        mark("networkAccess"@) == 29535900359565,
        mark("turnId"@) == 30315374271750,
        mark("mode"@) == 27595590327108,
        mark("expires_at"@) == 27867310070090,
        mark("expires_in_seconds"@) == 30344428263762,
        mark("last_refresh"@) == 27886586714892,
        mark("last_success"@) == 32284679363340,
        mark("backend"@) == 29530468669575,
        mark("auth"@) == 32010829387844,
        mark("delta"@) == 29811776510213,
        mark("response"@) == 30635353267336,
        mark("owned_by"@) == 27593526860744,
        mark("alias_for"@) == 31730624567369,
        mark("data"@) == 32010799700228,
        mark("exp"@) == 33114669586755,
        mark("tokens"@) == 27881264372998,
        mark("access_token"@) == 26222312085580,
        mark("OPENAI_API_KEY"@) == 17941526746062,
        mark("result"@) == 32277167430790,
        mark("thread"@) == 27867242700038,
        mark("turn"@) == 31458951257348,
        mark("usage"@) == 26774177897797,
        mark("inputTokens"@) == 23208339937867,
        mark("outputTokens"@) == 23208340052940,
        mark("item"@) == 27871575611972,
        mark("completed"@) == 29795683129545,
        mark("interrupted"@) == 31444950555211,
        mark("failed"@) == 29795682900358,
        mark("item/agentMessage/delta"@) == 27887631407703,
        mark("turn/completed"@) == 30070561135886,
        mark("ok"@) == 29531571936194,
        mark("unknown"@) == 30364808224071,
        mark("revoked"@) == 30620316687495,
        mark("expired"@) == 28971049556295,
        mark("missing"@) == 31729504639815,
        mark("unreadable"@) == 27604180245834,
        mark("chatgpt"@) == 32006584539335,
        mark("apikey"@) == 29520893319238,
        mark("none"@) == 30355106814852,
        mark("system"@) == 31994744298694,
        mark("developer"@) == 29795741686025,
        mark("user"@) == 27871596567876,
        mark("assistant"@) == 31729559328841,
        mark("codex"@) == 27596743760069,
        mark("gpt-5.4-mini"@) == 14412205005260,
        mark("gpt-5.5"@) == 12419122076103,
        mark("gpt-5.6-luna"@) == 14961927264716,
        mark("gpt-5.6-terra"@) == 14966222232013,
        mark("gpt-5.6-sol"@) == 12764023888331,
        mark("response.created"@) == 12753252736144,
        mark("response.output_text.delta"@) == 32285677673626,
        mark("response.output_text.done"@) == 30904862465177,
        mark("response.completed"@) == 27321781804178,
        mark("stop"@) == 30631104683204,
        mark("image"@) == 26774177798725,
{
    reveal_strlit("error");
    reveal_strlit("message");
    reveal_strlit("type");
    reveal_strlit("param");
    reveal_strlit("code");
    reveal_strlit("id");
    reveal_strlit("object");
    reveal_strlit("created");
    reveal_strlit("model");
    reveal_strlit("choices");
    reveal_strlit("index");
    reveal_strlit("role");
    reveal_strlit("content");
    reveal_strlit("finish_reason");
    reveal_strlit("status");
    reveal_strlit("output");
    reveal_strlit("text");
    reveal_strlit("url");
    reveal_strlit("detail");
    reveal_strlit("method");
    reveal_strlit("params");
    reveal_strlit("clientInfo");
    reveal_strlit("name");
    reveal_strlit("title");
    reveal_strlit("version");
    reveal_strlit("ephemeral");
    reveal_strlit("sandbox");
    reveal_strlit("threadId");
    reveal_strlit("sandboxPolicy");
    reveal_strlit("input");
    reveal_strlit("networkAccess");
    reveal_strlit("turnId");
    reveal_strlit("mode");
    reveal_strlit("expires_at");
    reveal_strlit("expires_in_seconds");
    reveal_strlit("last_refresh");
    reveal_strlit("last_success");
    reveal_strlit("backend");
    reveal_strlit("auth");
    reveal_strlit("delta");
    reveal_strlit("response");
    reveal_strlit("owned_by");
    reveal_strlit("alias_for");
    reveal_strlit("data");
    reveal_strlit("exp");
    reveal_strlit("tokens");
    reveal_strlit("access_token");
    reveal_strlit("OPENAI_API_KEY");
    reveal_strlit("result");
    reveal_strlit("thread");
    reveal_strlit("turn");
    reveal_strlit("usage");
    reveal_strlit("inputTokens");
    reveal_strlit("outputTokens");
    reveal_strlit("item");
    reveal_strlit("completed");
    reveal_strlit("interrupted");
    reveal_strlit("failed");
    reveal_strlit("item/agentMessage/delta");
    reveal_strlit("turn/completed");
    reveal_strlit("ok");
    reveal_strlit("unknown");
    reveal_strlit("revoked");
    reveal_strlit("expired");
    reveal_strlit("missing");
    reveal_strlit("unreadable");
    reveal_strlit("chatgpt");
    reveal_strlit("apikey");
    reveal_strlit("none");
    reveal_strlit("system");
    reveal_strlit("developer");
    reveal_strlit("user");
    reveal_strlit("assistant");
    reveal_strlit("codex");
    reveal_strlit("gpt-5.4-mini");
    reveal_strlit("gpt-5.5");
    reveal_strlit("gpt-5.6-luna");
    reveal_strlit("gpt-5.6-terra");
    reveal_strlit("gpt-5.6-sol");
    reveal_strlit("response.created");
    reveal_strlit("response.output_text.delta");
    reveal_strlit("response.output_text.done");
    reveal_strlit("response.completed");
    reveal_strlit("stop");
    reveal_strlit("image");
}

} // verus!
