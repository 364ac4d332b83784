//! The modulus `2^61 - 1` is prime in the sense the field needs: every nonzero residue `a`
//! has `a^(p-1) = 1`. The proof rests on the generator 37, whose order is `p - 1`, shown from
//! `p - 1 = 2 * 3^2 * 5^2 * 7 * 11 * 13 * 31 * 41 * 61 * 151 * 331 * 1321`: its powers then
//! run through every nonzero residue.
use crate::field::p;
use vstd::arithmetic::div_mod::*;
use vstd::arithmetic::mul::*;
use vstd::arithmetic::power::*;
use vstd::prelude::*;

verus! {

/// `b^e mod n` by repeated squaring.
pub open spec fn mpow(b: int, e: nat, n: int) -> int
    decreases e,
{
    if e == 0 {
        1int % n
    } else {
        let h = mpow(b, e / 2, n);
        let h2 = (h * h) % n;
        if e % 2 == 1 {
            (h2 * b) % n
        } else {
            h2
        }
    }
}

/// Repeated squaring computes the power.
pub proof fn lemma_mpow(b: int, e: nat, n: int)
    requires
        n > 0,
    ensures
        mpow(b, e, n) == pow(b, e) % n,
    decreases e,
{
    if e == 0 {
        lemma_pow0(b);
    } else {
        let k = e / 2;
        lemma_mpow(b, k, n);
        let h = mpow(b, k, n);
        lemma_pow_adds(b, k, k);
        lemma_mul_mod_noop_general(pow(b, k), pow(b, k), n);
        let h2 = (h * h) % n;
        assert(h2 == pow(b, (k + k) as nat) % n);
        if e % 2 == 1 {
            assert(e == (k + k) + 1);
            lemma_pow_adds(b, (k + k) as nat, 1);
            lemma_pow1(b);
            lemma_mul_mod_noop_left(pow(b, (k + k) as nat), b, n);
        } else {
            assert(e == k + k);
        }
    }
}

/// One squaring step of `mpow` for the base 37 and the prime.
proof fn lemma_mpow_step(e: nat, h: int, h2: int, v: int)
    requires
        e > 0,
        mpow(37, e / 2, p()) == h,
        h2 == (h * h) % p(),
        v == if e % 2 == 1 {
            (h2 * 37) % p()
        } else {
            h2
        },
    ensures
        mpow(37, e, p()) == v,
{
}

/// The generator 37 raised to `n` is one modulo the prime.
pub open spec fn unit_power(n: nat) -> bool {
    pow(37, n) % p() == 1
}

/// `37^2305843009213693950` modulo the prime, by repeated squaring.
proof fn lemma_generator_full()
    ensures
        unit_power(2305843009213693950nat),
{
    assert(mpow(37, 0nat, p()) == 1int);
    lemma_mpow_step(1nat, 1int, 1int, 37int);
    lemma_mpow_step(3nat, 37int, 1369int, 50653int);
    lemma_mpow_step(7nat, 50653int, 2565726409int, 94931877133int);
    lemma_mpow_step(15nat, 94931877133int, 826815987892339181int, 616232432238528334int);
    lemma_mpow_step(31nat, 616232432238528334int, 402778895455182525int, 1067761076559589719int);
    lemma_mpow_step(63nat, 1067761076559589719int, 494625628984157828int, 2160247207917981979int);
    lemma_mpow_step(127nat, 2160247207917981979int, 1331839259318856813int, 855349401310129110int);
    lemma_mpow_step(255nat, 855349401310129110int, 1558476626656031890int, 17559955930831155int);
    lemma_mpow_step(511nat, 17559955930831155int, 1549265469538204418int, 1982590151784908642int);
    lemma_mpow_step(1023nat, 1982590151784908642int, 2162679627971461758int, 1620483921678490712int);
    lemma_mpow_step(2047nat, 1620483921678490712int, 146181933895270542int, 797045535697622152int);
    lemma_mpow_step(4095nat, 797045535697622152int, 1280383653602432052int, 1257334999016106904int);
    lemma_mpow_step(8191nat, 1257334999016106904int, 1718487481277847155int, 1326275558510608058int);
    lemma_mpow_step(16383nat, 1326275558510608058int, 588638499900072055int, 1027037413379420476int);
    lemma_mpow_step(32767nat, 1027037413379420476int, 208391841392942170int, 792969103897778437int);
    lemma_mpow_step(65535nat, 792969103897778437int, 152515368071080937int, 1031382600202606767int);
    lemma_mpow_step(131071nat, 1031382600202606767int, 2155288217072033190int, 1347001718399633696int);
    lemma_mpow_step(262143nat, 1347001718399633696int, 794460576466359998int, 1724925218690992514int);
    lemma_mpow_step(524287nat, 1724925218690992514int, 724797475747227351int, 1453233501296778526int);
    lemma_mpow_step(1048575nat, 1453233501296778526int, 652921838251185575int, 1099677923156926765int);
    lemma_mpow_step(2097151nat, 1099677923156926765int, 742068081681864210int, 2092245920878342309int);
    lemma_mpow_step(4194303nat, 2092245920878342309int, 666585808950332814int, 1605244839025374608int);
    lemma_mpow_step(8388607nat, 1605244839025374608int, 1180762468442821560int, 2183037166537906602int);
    lemma_mpow_step(16777215nat, 2183037166537906602int, 565830704986682533int, 183149001584008162int);
    lemma_mpow_step(33554431nat, 183149001584008162int, 412249612943649628int, 1418177623632872530int);
    lemma_mpow_step(67108863nat, 1418177623632872530int, 2166097415507956791int, 1746942060528806933int);
    lemma_mpow_step(134217727nat, 1746942060528806933int, 390966364361498179int, 630697426093268917int);
    lemma_mpow_step(268435455nat, 630697426093268917int, 72493925214921715int, 376432223738409504int);
    lemma_mpow_step(536870911nat, 376432223738409504int, 571440403349648785int, 390707841013759486int);
    lemma_mpow_step(1073741823nat, 390707841013759486int, 1846425465361805404int, 1448294951189675369int);
    lemma_mpow_step(2147483647nat, 1448294951189675369int, 151227346123014362int, 983725788124143492int);
    lemma_mpow_step(4294967295nat, 983725788124143492int, 281690927124487729int, 1199192266751270169int);
    lemma_mpow_step(8589934591nat, 1199192266751270169int, 1341243337946430419int, 1203300310530352532int);
    lemma_mpow_step(17179869183nat, 1203300310530352532int, 1570977453208266869int, 480090538363525378int);
    lemma_mpow_step(34359738367nat, 480090538363525378int, 1255437616595228619int, 334331629749579883int);
    lemma_mpow_step(68719476735nat, 334331629749579883int, 1071741499967791974int, 455104342175505871int);
    lemma_mpow_step(137438953471nat, 455104342175505871int, 228705248501882429int, 1544565166928568020int);
    lemma_mpow_step(274877906943nat, 1544565166928568020int, 2049532545779054094int, 2045727898986795046int);
    lemma_mpow_step(549755813887nat, 2045727898986795046int, 260720661589347564int, 423292441951084064int);
    lemma_mpow_step(1099511627775nat, 423292441951084064int, 1475759043159771944int, 1568695384996601055int);
    lemma_mpow_step(2199023255551nat, 1568695384996601055int, 1245585892804418001int, 2275660858703280968int);
    lemma_mpow_step(4398046511103nat, 2275660858703280968int, 112549680581412311int, 1858495172298561556int);
    lemma_mpow_step(8796093022207nat, 1858495172298561556int, 1822662205703971310int, 569054343849813891int);
    lemma_mpow_step(17592186044415nat, 569054343849813891int, 273235290159633500int, 886333699051663696int);
    lemma_mpow_step(35184372088831nat, 886333699051663696int, 2131399742756913710int, 463128168740212936int);
    lemma_mpow_step(70368744177663nat, 463128168740212936int, 1535419154706109660int, 1470276502997402596int);
    lemma_mpow_step(140737488355327nat, 1470276502997402596int, 1309736547623153985int, 37549068569124474int);
    lemma_mpow_step(281474976710655nat, 37549068569124474int, 1284640436418541372int, 1414835963212151744int);
    lemma_mpow_step(562949953421311nat, 1414835963212151744int, 1720600371330404097int, 1404452490455214912int);
    lemma_mpow_step(1125899906842623nat, 1404452490455214912int, 151313146109982526int, 986900387641965560int);
    lemma_mpow_step(2251799813685247nat, 986900387641965560int, 1884075919588208633int, 535518748352900891int);
    lemma_mpow_step(4503599627370495nat, 535518748352900891int, 1119766008106076412int, 2232011143292030077int);
    lemma_mpow_step(9007199254740991nat, 2232011143292030077int, 397979660456682274int, 890189381615080432int);
    lemma_mpow_step(18014398509481983nat, 890189381615080432int, 1107053542953062238int, 1761649932630505639int);
    lemma_mpow_step(36028797018963967nat, 1761649932630505639int, 1883145229697208690int, 501083222385903000int);
    lemma_mpow_step(72057594037927935nat, 501083222385903000int, 2250021936305220258int, 240463311600167310int);
    lemma_mpow_step(144115188075855871nat, 240463311600167310int, 513456471930930812int, 551145387734888436int);
    lemma_mpow_step(288230376151711743nat, 551145387734888436int, 697553356688720513int, 445201096132025520int);
    lemma_mpow_step(576460752303423487nat, 445201096132025520int, 2067650758863943121int, 410258773913995094int);
    lemma_mpow_step(1152921504606846975nat, 410258773913995094int, 124640162660199673int, 2305843009213693950int);
    lemma_mpow_step(2305843009213693950nat, 2305843009213693950int, 1int, 1int);
    lemma_mpow(37, 2305843009213693950nat, p());
}

/// `37^1152921504606846975` modulo the prime, by repeated squaring.
proof fn lemma_generator_2()
    ensures
        !unit_power(1152921504606846975nat),
{
    assert(mpow(37, 0nat, p()) == 1int);
    lemma_mpow_step(1nat, 1int, 1int, 37int);
    lemma_mpow_step(3nat, 37int, 1369int, 50653int);
    lemma_mpow_step(7nat, 50653int, 2565726409int, 94931877133int);
    lemma_mpow_step(15nat, 94931877133int, 826815987892339181int, 616232432238528334int);
    lemma_mpow_step(31nat, 616232432238528334int, 402778895455182525int, 1067761076559589719int);
    lemma_mpow_step(63nat, 1067761076559589719int, 494625628984157828int, 2160247207917981979int);
    lemma_mpow_step(127nat, 2160247207917981979int, 1331839259318856813int, 855349401310129110int);
    lemma_mpow_step(255nat, 855349401310129110int, 1558476626656031890int, 17559955930831155int);
    lemma_mpow_step(511nat, 17559955930831155int, 1549265469538204418int, 1982590151784908642int);
    lemma_mpow_step(1023nat, 1982590151784908642int, 2162679627971461758int, 1620483921678490712int);
    lemma_mpow_step(2047nat, 1620483921678490712int, 146181933895270542int, 797045535697622152int);
    lemma_mpow_step(4095nat, 797045535697622152int, 1280383653602432052int, 1257334999016106904int);
    lemma_mpow_step(8191nat, 1257334999016106904int, 1718487481277847155int, 1326275558510608058int);
    lemma_mpow_step(16383nat, 1326275558510608058int, 588638499900072055int, 1027037413379420476int);
    lemma_mpow_step(32767nat, 1027037413379420476int, 208391841392942170int, 792969103897778437int);
    lemma_mpow_step(65535nat, 792969103897778437int, 152515368071080937int, 1031382600202606767int);
    lemma_mpow_step(131071nat, 1031382600202606767int, 2155288217072033190int, 1347001718399633696int);
    lemma_mpow_step(262143nat, 1347001718399633696int, 794460576466359998int, 1724925218690992514int);
    lemma_mpow_step(524287nat, 1724925218690992514int, 724797475747227351int, 1453233501296778526int);
    lemma_mpow_step(1048575nat, 1453233501296778526int, 652921838251185575int, 1099677923156926765int);
    lemma_mpow_step(2097151nat, 1099677923156926765int, 742068081681864210int, 2092245920878342309int);
    lemma_mpow_step(4194303nat, 2092245920878342309int, 666585808950332814int, 1605244839025374608int);
    lemma_mpow_step(8388607nat, 1605244839025374608int, 1180762468442821560int, 2183037166537906602int);
    lemma_mpow_step(16777215nat, 2183037166537906602int, 565830704986682533int, 183149001584008162int);
    lemma_mpow_step(33554431nat, 183149001584008162int, 412249612943649628int, 1418177623632872530int);
    lemma_mpow_step(67108863nat, 1418177623632872530int, 2166097415507956791int, 1746942060528806933int);
    lemma_mpow_step(134217727nat, 1746942060528806933int, 390966364361498179int, 630697426093268917int);
    lemma_mpow_step(268435455nat, 630697426093268917int, 72493925214921715int, 376432223738409504int);
    lemma_mpow_step(536870911nat, 376432223738409504int, 571440403349648785int, 390707841013759486int);
    lemma_mpow_step(1073741823nat, 390707841013759486int, 1846425465361805404int, 1448294951189675369int);
    lemma_mpow_step(2147483647nat, 1448294951189675369int, 151227346123014362int, 983725788124143492int);
    lemma_mpow_step(4294967295nat, 983725788124143492int, 281690927124487729int, 1199192266751270169int);
    lemma_mpow_step(8589934591nat, 1199192266751270169int, 1341243337946430419int, 1203300310530352532int);
    lemma_mpow_step(17179869183nat, 1203300310530352532int, 1570977453208266869int, 480090538363525378int);
    lemma_mpow_step(34359738367nat, 480090538363525378int, 1255437616595228619int, 334331629749579883int);
    lemma_mpow_step(68719476735nat, 334331629749579883int, 1071741499967791974int, 455104342175505871int);
    lemma_mpow_step(137438953471nat, 455104342175505871int, 228705248501882429int, 1544565166928568020int);
    lemma_mpow_step(274877906943nat, 1544565166928568020int, 2049532545779054094int, 2045727898986795046int);
    lemma_mpow_step(549755813887nat, 2045727898986795046int, 260720661589347564int, 423292441951084064int);
    lemma_mpow_step(1099511627775nat, 423292441951084064int, 1475759043159771944int, 1568695384996601055int);
    lemma_mpow_step(2199023255551nat, 1568695384996601055int, 1245585892804418001int, 2275660858703280968int);
    lemma_mpow_step(4398046511103nat, 2275660858703280968int, 112549680581412311int, 1858495172298561556int);
    lemma_mpow_step(8796093022207nat, 1858495172298561556int, 1822662205703971310int, 569054343849813891int);
    lemma_mpow_step(17592186044415nat, 569054343849813891int, 273235290159633500int, 886333699051663696int);
    lemma_mpow_step(35184372088831nat, 886333699051663696int, 2131399742756913710int, 463128168740212936int);
    lemma_mpow_step(70368744177663nat, 463128168740212936int, 1535419154706109660int, 1470276502997402596int);
    lemma_mpow_step(140737488355327nat, 1470276502997402596int, 1309736547623153985int, 37549068569124474int);
    lemma_mpow_step(281474976710655nat, 37549068569124474int, 1284640436418541372int, 1414835963212151744int);
    lemma_mpow_step(562949953421311nat, 1414835963212151744int, 1720600371330404097int, 1404452490455214912int);
    lemma_mpow_step(1125899906842623nat, 1404452490455214912int, 151313146109982526int, 986900387641965560int);
    lemma_mpow_step(2251799813685247nat, 986900387641965560int, 1884075919588208633int, 535518748352900891int);
    lemma_mpow_step(4503599627370495nat, 535518748352900891int, 1119766008106076412int, 2232011143292030077int);
    lemma_mpow_step(9007199254740991nat, 2232011143292030077int, 397979660456682274int, 890189381615080432int);
    lemma_mpow_step(18014398509481983nat, 890189381615080432int, 1107053542953062238int, 1761649932630505639int);
    lemma_mpow_step(36028797018963967nat, 1761649932630505639int, 1883145229697208690int, 501083222385903000int);
    lemma_mpow_step(72057594037927935nat, 501083222385903000int, 2250021936305220258int, 240463311600167310int);
    lemma_mpow_step(144115188075855871nat, 240463311600167310int, 513456471930930812int, 551145387734888436int);
    lemma_mpow_step(288230376151711743nat, 551145387734888436int, 697553356688720513int, 445201096132025520int);
    lemma_mpow_step(576460752303423487nat, 445201096132025520int, 2067650758863943121int, 410258773913995094int);
    lemma_mpow_step(1152921504606846975nat, 410258773913995094int, 124640162660199673int, 2305843009213693950int);
    lemma_mpow(37, 1152921504606846975nat, p());
}

/// `37^768614336404564650` modulo the prime, by repeated squaring.
proof fn lemma_generator_3()
    ensures
        !unit_power(768614336404564650nat),
{
    assert(mpow(37, 0nat, p()) == 1int);
    lemma_mpow_step(1nat, 1int, 1int, 37int);
    lemma_mpow_step(2nat, 37int, 1369int, 1369int);
    lemma_mpow_step(5nat, 1369int, 1874161int, 69343957int);
    lemma_mpow_step(10nat, 69343957int, 4808584372417849int, 4808584372417849int);
    lemma_mpow_step(21nat, 4808584372417849int, 1955941303978935990int, 888694961596119149int);
    lemma_mpow_step(42nat, 888694961596119149int, 894912350165519413int, 894912350165519413int);
    lemma_mpow_step(85nat, 894912350165519413int, 1320999413172432476int, 454275093892428641int);
    lemma_mpow_step(170nat, 454275093892428641int, 701131434997227562int, 701131434997227562int);
    lemma_mpow_step(341nat, 701131434997227562int, 1649041921766326313int, 1062632865798030855int);
    lemma_mpow_step(682nat, 1062632865798030855int, 2036605303778127185int, 2036605303778127185int);
    lemma_mpow_step(1365nat, 2036605303778127185int, 454461861192246854int, 674187799617275941int);
    lemma_mpow_step(2730nat, 674187799617275941int, 321343956040114611int, 321343956040114611int);
    lemma_mpow_step(5461nat, 321343956040114611int, 848420236142168614int, 1415589617482217355int);
    lemma_mpow_step(10922nat, 1415589617482217355int, 812136621146772022int, 812136621146772022int);
    lemma_mpow_step(21845nat, 812136621146772022int, 935269675163533225int, 17332842845320060int);
    lemma_mpow_step(43690nat, 17332842845320060int, 1020017986162963204int, 1020017986162963204int);
    lemma_mpow_step(87381nat, 1020017986162963204int, 1311206646122490380int, 91942713044571089int);
    lemma_mpow_step(174762nat, 91942713044571089int, 1533194195838376616int, 1533194195838376616int);
    lemma_mpow_step(349525nat, 1533194195838376616int, 1227895781374760197int, 1621126735805942220int);
    lemma_mpow_step(699050nat, 1621126735805942220int, 155718072700530028int, 155718072700530028int);
    lemma_mpow_step(1398101nat, 155718072700530028int, 297186083002696707int, 1772513034245002355int);
    lemma_mpow_step(2796202nat, 1772513034245002355int, 1047606006045650792int, 1047606006045650792int);
    lemma_mpow_step(5592405nat, 1047606006045650792int, 487702915670720591int, 1904106815320804210int);
    lemma_mpow_step(11184810nat, 1904106815320804210int, 1571764092410258675int, 1571764092410258675int);
    lemma_mpow_step(22369621nat, 1571764092410258675int, 183321196805196573int, 2171198263364885299int);
    lemma_mpow_step(44739242nat, 2171198263364885299int, 442915905711901952int, 442915905711901952int);
    lemma_mpow_step(89478485nat, 442915905711901952int, 1954471480783682977int, 834311503371757668int);
    lemma_mpow_step(178956970nat, 834311503371757668int, 1870461278028150258int, 1870461278028150258int);
    lemma_mpow_step(357913941nat, 1870461278028150258int, 10203067185727499int, 377513485871917463int);
    lemma_mpow_step(715827882nat, 377513485871917463int, 621721964039512615int, 621721964039512615int);
    lemma_mpow_step(1431655765nat, 621721964039512615int, 1027649771662858821int, 1129553404106673161int);
    lemma_mpow_step(2863311530nat, 1129553404106673161int, 1489167355912447362int, 1489167355912447362int);
    lemma_mpow_step(5726623061nat, 1489167355912447362int, 162289323846217758int, 1393018963882669144int);
    lemma_mpow_step(11453246122nat, 1393018963882669144int, 923195156908011831int, 923195156908011831int);
    lemma_mpow_step(22906492245nat, 923195156908011831int, 1323280977405789708int, 538692970526646225int);
    lemma_mpow_step(45812984490nat, 538692970526646225int, 144926145359869064int, 144926145359869064int);
    lemma_mpow_step(91625968981nat, 144926145359869064int, 1552419814205322801int, 2099300904468288813int);
    lemma_mpow_step(183251937962nat, 2099300904468288813int, 538461566152087671int, 538461566152087671int);
    lemma_mpow_step(366503875925nat, 538461566152087671int, 2132758762996018142int, 513411917587076920int);
    lemma_mpow_step(733007751850nat, 513411917587076920int, 443787270311340831int, 443787270311340831int);
    lemma_mpow_step(1466015503701nat, 443787270311340831int, 769067199884044264int, 785370285145310356int);
    lemma_mpow_step(2932031007402nat, 785370285145310356int, 1872168366718845815int, 1872168366718845815int);
    lemma_mpow_step(5864062014805nat, 1872168366718845815int, 2162796093521213681int, 1624793147019311863int);
    lemma_mpow_step(11728124029610nat, 1624793147019311863int, 856854973097751333int, 856854973097751333int);
    lemma_mpow_step(23456248059221nat, 856854973097751333int, 1268160380027361712int, 805073876738504324int);
    lemma_mpow_step(46912496118442nat, 805073876738504324int, 2139670068156871055int, 2139670068156871055int);
    lemma_mpow_step(93824992236885nat, 2139670068156871055int, 564531115431738326int, 135064188051072503int);
    lemma_mpow_step(187649984473770nat, 135064188051072503int, 1777883566789543120int, 1777883566789543120int);
    lemma_mpow_step(375299968947541nat, 1777883566789543120int, 1965064119465339774int, 1226239134593059157int);
    lemma_mpow_step(750599937895082nat, 1226239134593059157int, 1764762195221922132int, 1764762195221922132int);
    lemma_mpow_step(1501199875790165nat, 1764762195221922132int, 2054020871993638427int, 2211795968926415367int);
    lemma_mpow_step(3002399751580330nat, 2211795968926415367int, 1666146269762060579int, 1666146269762060579int);
    lemma_mpow_step(6004799503160661nat, 1666146269762060579int, 652030436491700762int, 1066696058055988684int);
    lemma_mpow_step(12009599006321322nat, 1066696058055988684int, 796481924047603137int, 796481924047603137int);
    lemma_mpow_step(24019198012642645nat, 796481924047603137int, 2003426852922416612int, 339817263291208212int);
    lemma_mpow_step(48038396025285290nat, 339817263291208212int, 2159224437699580815int, 2159224437699580815int);
    lemma_mpow_step(96076792050570581nat, 2159224437699580815int, 1114459185065493786int, 2035658690790472915int);
    lemma_mpow_step(192153584101141162nat, 2035658690790472915int, 1600724798789556215int, 1600724798789556215int);
    lemma_mpow_step(384307168202282325nat, 1600724798789556215int, 792964824346099344int, 1669582390241348316int);
    lemma_mpow_step(768614336404564650nat, 1669582390241348316int, 1669582390241348315int, 1669582390241348315int);
    lemma_mpow(37, 768614336404564650nat, p());
}

/// `37^461168601842738790` modulo the prime, by repeated squaring.
proof fn lemma_generator_5()
    ensures
        !unit_power(461168601842738790nat),
{
    assert(mpow(37, 0nat, p()) == 1int);
    lemma_mpow_step(1nat, 1int, 1int, 37int);
    lemma_mpow_step(3nat, 37int, 1369int, 50653int);
    lemma_mpow_step(6nat, 50653int, 2565726409int, 2565726409int);
    lemma_mpow_step(12nat, 2565726409int, 1971265987412647379int, 1971265987412647379int);
    lemma_mpow_step(25nat, 1971265987412647379int, 398663858489942875int, 915504708845722669int);
    lemma_mpow_step(51nat, 915504708845722669int, 249845630697408639int, 20916298949343839int);
    lemma_mpow_step(102nat, 20916298949343839int, 92200521201836915int, 92200521201836915int);
    lemma_mpow_step(204nat, 92200521201836915int, 1115430579838476177int, 1115430579838476177int);
    lemma_mpow_step(409nat, 1115430579838476177int, 175365010114160207int, 1876819355796539757int);
    lemma_mpow_step(819nat, 1876819355796539757int, 328100220568387083int, 610493114961852316int);
    lemma_mpow_step(1638nat, 610493114961852316int, 985893244345592266int, 985893244345592266int);
    lemma_mpow_step(3276nat, 985893244345592266int, 1678053670663582382int, 1678053670663582382int);
    lemma_mpow_step(6553nat, 1678053670663582382int, 1830238439724483195int, 849375002608753636int);
    lemma_mpow_step(13107nat, 849375002608753636int, 829977044857330284int, 733191539943199145int);
    lemma_mpow_step(26214nat, 733191539943199145int, 2153848202027799961int, 2153848202027799961int);
    lemma_mpow_step(52428nat, 2153848202027799961int, 1067777443961730362int, 1067777443961730362int);
    lemma_mpow_step(104857nat, 1067777443961730362int, 1329204334006426991int, 757857164750225696int);
    lemma_mpow_step(209715nat, 757857164750225696int, 519441727951599085int, 772599860499614537int);
    lemma_mpow_step(419430nat, 772599860499614537int, 1603459955069609960int, 1603459955069609960int);
    lemma_mpow_step(838860nat, 1603459955069609960int, 1253325606998238409int, 1253325606998238409int);
    lemma_mpow_step(1677721nat, 1253325606998238409int, 994753660103363686int, 2218240285619047117int);
    lemma_mpow_step(3355443nat, 2218240285619047117int, 2035439263254650537int, 1524276445583863437int);
    lemma_mpow_step(6710886nat, 1524276445583863437int, 426225928886305857int, 426225928886305857int);
    lemma_mpow_step(13421772nat, 426225928886305857int, 1633159463509091852int, 1633159463509091852int);
    lemma_mpow_step(26843545nat, 1633159463509091852int, 2030677037053543326int, 1348074076142896630int);
    lemma_mpow_step(53687091nat, 1348074076142896630int, 681695552827064153int, 2164305362464434151int);
    lemma_mpow_step(107374182nat, 2164305362464434151int, 1067724814112099242int, 1067724814112099242int);
    lemma_mpow_step(214748364nat, 1067724814112099242int, 966220849494503741int, 966220849494503741int);
    lemma_mpow_step(429496729nat, 966220849494503741int, 2154850677265858894int, 1330812745571184744int);
    lemma_mpow_step(858993459nat, 1330812745571184744int, 1033659089019627080int, 1351898146307098744int);
    lemma_mpow_step(1717986918nat, 1351898146307098744int, 354488523461011054int, 354488523461011054int);
    lemma_mpow_step(3435973836nat, 354488523461011054int, 416018925334076019int, 416018925334076019int);
    lemma_mpow_step(6871947673nat, 416018925334076019int, 1124353205548370179int, 95894439443205505int);
    lemma_mpow_step(13743895347nat, 95894439443205505int, 1730802099021660592int, 1781916415031705227int);
    lemma_mpow_step(27487790694nat, 1781916415031705227int, 1592424462823494453int, 1592424462823494453int);
    lemma_mpow_step(54975581388nat, 1592424462823494453int, 485881619451419997int, 485881619451419997int);
    lemma_mpow_step(109951162777nat, 485881619451419997int, 1056657038703137397int, 2202822284596980473int);
    lemma_mpow_step(219902325555nat, 2202822284596980473int, 1885728256695319552int, 596655221316004894int);
    lemma_mpow_step(439804651110nat, 596655221316004894int, 740722046356123805int, 740722046356123805int);
    lemma_mpow_step(879609302220nat, 740722046356123805int, 2099460386211327809int, 2099460386211327809int);
    lemma_mpow_step(1759218604441nat, 2099460386211327809int, 2214541734573701744int, 1233538856747676243int);
    lemma_mpow_step(3518437208883nat, 1233538856747676243int, 2187201684188330238int, 221956992488930521int);
    lemma_mpow_step(7036874417766nat, 221956992488930521int, 1324937114391066770int, 1324937114391066770int);
    lemma_mpow_step(14073748835532nat, 1324937114391066770int, 2096178105833530020int, 2096178105833530020int);
    lemma_mpow_step(28147497671065nat, 2096178105833530020int, 1433996857703763446int, 23494523124286629int);
    lemma_mpow_step(56294995342131nat, 23494523124286629int, 1838361339028041611int, 1149922276840415028int);
    lemma_mpow_step(112589990684262nat, 1149922276840415028int, 437123442137237322int, 437123442137237322int);
    lemma_mpow_step(225179981368524nat, 437123442137237322int, 236534828961754953int, 236534828961754953int);
    lemma_mpow_step(450359962737049nat, 236534828961754953int, 110129590405188511int, 1768951835778280956int);
    lemma_mpow_step(900719925474099nat, 1768951835778280956int, 989349843737578137int, 2018299080084981804int);
    lemma_mpow_step(1801439850948198nat, 2018299080084981804int, 629618497200666380int, 629618497200666380int);
    lemma_mpow_step(3602879701896396nat, 629618497200666380int, 1646573114568114956int, 1646573114568114956int);
    lemma_mpow_step(7205759403792793nat, 1646573114568114956int, 1983773034788791805int, 1918469001560784304int);
    lemma_mpow_step(14411518807585587nat, 1918469001560784304int, 141475354880771357int, 622902112161152307int);
    lemma_mpow_step(28823037615171174nat, 622902112161152307int, 223547569593002926int, 223547569593002926int);
    lemma_mpow_step(57646075230342348nat, 223547569593002926int, 2010604699696780140int, 2010604699696780140int);
    lemma_mpow_step(115292150460684697nat, 2010604699696780140int, 1002672784279266283int, 205404870913749255int);
    lemma_mpow_step(230584300921369395nat, 205404870913749255int, 1073618117534164091int, 524539192131274200int);
    lemma_mpow_step(461168601842738790nat, 524539192131274200int, 725554454131936870int, 725554454131936870int);
    lemma_mpow(37, 461168601842738790nat, p());
}

/// `37^329406144173384850` modulo the prime, by repeated squaring.
proof fn lemma_generator_7()
    ensures
        !unit_power(329406144173384850nat),
{
    assert(mpow(37, 0nat, p()) == 1int);
    lemma_mpow_step(1nat, 1int, 1int, 37int);
    lemma_mpow_step(2nat, 37int, 1369int, 1369int);
    lemma_mpow_step(4nat, 1369int, 1874161int, 1874161int);
    lemma_mpow_step(9nat, 1874161int, 3512479453921int, 129961739795077int);
    lemma_mpow_step(18nat, 129961739795077int, 2130417461614381366int, 2130417461614381366int);
    lemma_mpow_step(36nat, 2130417461614381366int, 884313560627829947int, 884313560627829947int);
    lemma_mpow_step(73nat, 884313560627829947int, 1331915007112236968int, 858152069665194845int);
    lemma_mpow_step(146nat, 858152069665194845int, 2152298284617609383int, 2152298284617609383int);
    lemma_mpow_step(292nat, 2152298284617609383int, 1782283889081069979int, 1782283889081069979int);
    lemma_mpow_step(585nat, 1782283889081069979int, 260611263478437866int, 419244711847425238int);
    lemma_mpow_step(1170nat, 419244711847425238int, 1017010712830157597int, 1017010712830157597int);
    lemma_mpow_step(2340nat, 1017010712830157597int, 1646774030140899483int, 1646774030140899483int);
    lemma_mpow_step(4681nat, 1646774030140899483int, 1526100690215596358int, 1125493316848410422int);
    lemma_mpow_step(9362nat, 1125493316848410422int, 2043004164827987706int, 2043004164827987706int);
    lemma_mpow_step(18724nat, 2043004164827987706int, 1140820669172755891int, 1140820669172755891int);
    lemma_mpow_step(37449nat, 1140820669172755891int, 189183073667403760int, 82244698052857267int);
    lemma_mpow_step(74898nat, 82244698052857267int, 2210526432403221929int, 2210526432403221929int);
    lemma_mpow_step(149796nat, 2210526432403221929int, 997597335538543871int, 997597335538543871int);
    lemma_mpow_step(299593nat, 997597335538543871int, 1469150222299885610int, 1324169013180806697int);
    lemma_mpow_step(599186nat, 1324169013180806697int, 1409204877215935722int, 1409204877215935722int);
    lemma_mpow_step(1198372nat, 1409204877215935722int, 263882281454515095int, 263882281454515095int);
    lemma_mpow_step(2396745nat, 263882281454515095int, 1895366313616003751int, 953263327381320257int);
    lemma_mpow_step(4793490nat, 953263327381320257int, 1813160678559705135int, 1813160678559705135int);
    lemma_mpow_step(9586980nat, 1813160678559705135int, 2107810193979970140int, 2107810193979970140int);
    lemma_mpow_step(19173961nat, 2107810193979970140int, 205219532817222091int, 675593686596135514int);
    lemma_mpow_step(38347922nat, 675593686596135514int, 1399030843472832829int, 1399030843472832829int);
    lemma_mpow_step(76695844nat, 1399030843472832829int, 1351678081686781950int, 1351678081686781950int);
    lemma_mpow_step(153391689nat, 1351678081686781950int, 1923451615808709653int, 1992419508511438631int);
    lemma_mpow_step(306783378nat, 1992419508511438631int, 240322821650746190int, 240322821650746190int);
    lemma_mpow_step(613566756nat, 240322821650746190int, 951550098337755284int, 951550098337755284int);
    lemma_mpow_step(1227133513nat, 951550098337755284int, 1486177183206085483int, 1954166566710201998int);
    lemma_mpow_step(2454267026nat, 1954166566710201998int, 1440434973591732354int, 1440434973591732354int);
    lemma_mpow_step(4908534052nat, 1440434973591732354int, 1625591862248997925int, 1625591862248997925int);
    lemma_mpow_step(9817068105nat, 1625591862248997925int, 1615593670819475377int, 2130890589978240174int);
    lemma_mpow_step(19634136210nat, 2130890589978240174int, 1025243051829880922int, 1025243051829880922int);
    lemma_mpow_step(39268272420nat, 1025243051829880922int, 1632520427078460023int, 1632520427078460023int);
    lemma_mpow_step(78536544841nat, 1632520427078460023int, 752656158664514130int, 178161760022695398int);
    lemma_mpow_step(157073089682nat, 178161760022695398int, 2003652521244069712int, 2003652521244069712int);
    lemma_mpow_step(314146179364nat, 2003652521244069712int, 783334626309882785int, 783334626309882785int);
    lemma_mpow_step(628292358729nat, 783334626309882785int, 1144807842013944850int, 852715988669468332int);
    lemma_mpow_step(1256584717458nat, 852715988669468332int, 726651492048093752int, 726651492048093752int);
    lemma_mpow_step(2513169434916nat, 726651492048093752int, 1170473802636696988int, 1170473802636696988int);
    lemma_mpow_step(5026338869833nat, 1170473802636696988int, 1754653035374636925int, 358558050878135597int);
    lemma_mpow_step(10052677739666nat, 358558050878135597int, 130218841906050226int, 130218841906050226int);
    lemma_mpow_step(20105355479332nat, 130218841906050226int, 1691288877370869632int, 1691288877370869632int);
    lemma_mpow_step(40210710958665nat, 1691288877370869632int, 798546584467627213int, 1876107514737879469int);
    lemma_mpow_step(80421421917330nat, 1876107514737879469int, 2174886491362978632int, 2174886491362978632int);
    lemma_mpow_step(160842843834660nat, 2174886491362978632int, 650573771472069243int, 650573771472069243int);
    lemma_mpow_step(321685687669321nat, 650573771472069243int, 856949770593997969int, 1731182392199903490int);
    lemma_mpow_step(643371375338642nat, 1731182392199903490int, 1802518786536779042int, 1802518786536779042int);
    lemma_mpow_step(1286742750677284nat, 1802518786536779042int, 2287148315999403586int, 2287148315999403586int);
    lemma_mpow_step(2573485501354569nat, 2287148315999403586int, 724313492577666419int, 1435326124023024042int);
    lemma_mpow_step(5146971002709138nat, 1435326124023024042int, 2042291364917644111int, 2042291364917644111int);
    lemma_mpow_step(10293942005418276nat, 2042291364917644111int, 141115568760388380int, 141115568760388380int);
    lemma_mpow_step(20587884010836553nat, 141115568760388380int, 1005941587950548591int, 326350606751194651int);
    lemma_mpow_step(41175768021673106nat, 326350606751194651int, 1886223071404137603int, 1886223071404137603int);
    lemma_mpow_step(82351536043346212nat, 1886223071404137603int, 733037796054824281int, 733037796054824281int);
    lemma_mpow_step(164703072086692425nat, 733037796054824281int, 1057571019005927708int, 2236639555800221980int);
    lemma_mpow_step(329406144173384850nat, 2236639555800221980int, 1165310750493918737int, 1165310750493918737int);
    lemma_mpow(37, 329406144173384850nat, p());
}

/// `37^209622091746699450` modulo the prime, by repeated squaring.
proof fn lemma_generator_11()
    ensures
        !unit_power(209622091746699450nat),
{
    assert(mpow(37, 0nat, p()) == 1int);
    lemma_mpow_step(1nat, 1int, 1int, 37int);
    lemma_mpow_step(2nat, 37int, 1369int, 1369int);
    lemma_mpow_step(5nat, 1369int, 1874161int, 69343957int);
    lemma_mpow_step(11nat, 69343957int, 4808584372417849int, 177917621779460413int);
    lemma_mpow_step(23nat, 177917621779460413int, 599911450064693199int, 1444136569470402804int);
    lemma_mpow_step(46nat, 1444136569470402804int, 1877957767818366770int, 1877957767818366770int);
    lemma_mpow_step(93nat, 1877957767818366770int, 675451943200310807int, 1933291806274560349int);
    lemma_mpow_step(186nat, 1933291806274560349int, 697523968445991094int, 697523968445991094int);
    lemma_mpow_step(372nat, 697523968445991094int, 1220503693094626475int, 1220503693094626475int);
    lemma_mpow_step(744nat, 1220503693094626475int, 2274838273068976938int, 2274838273068976938int);
    lemma_mpow_step(1489nat, 2274838273068976938int, 2170203345591659611int, 1898861473625811273int);
    lemma_mpow_step(2978nat, 1898861473625811273int, 855035248970970729int, 855035248970970729int);
    lemma_mpow_step(5957nat, 855035248970970729int, 888356314701224646int, 587381514953596588int);
    lemma_mpow_step(11915nat, 587381514953596588int, 1760034171483620009int, 557660086910509705int);
    lemma_mpow_step(23831nat, 557660086910509705int, 831364083746243265int, 784511978832979442int);
    lemma_mpow_step(47662nat, 784511978832979442int, 1154579138022930181int, 1154579138022930181int);
    lemma_mpow_step(95325nat, 1154579138022930181int, 1217588748657111296int, 1239766525252932883int);
    lemma_mpow_step(190650nat, 1239766525252932883int, 1271571176372171503int, 1271571176372171503int);
    lemma_mpow_step(381300nat, 1271571176372171503int, 104934416332077556int, 104934416332077556int);
    lemma_mpow_step(762600nat, 104934416332077556int, 71806490447180870int, 71806490447180870int);
    lemma_mpow_step(1525201nat, 71806490447180870int, 2263787938057165250int, 749805376422132014int);
    lemma_mpow_step(3050402nat, 749805376422132014int, 1437811543577044739int, 1437811543577044739int);
    lemma_mpow_step(6100805nat, 1437811543577044739int, 1237517539310961571int, 1977131779445393058int);
    lemma_mpow_step(12201611nat, 1977131779445393058int, 1340932031167402241int, 1191781959706309946int);
    lemma_mpow_step(24403223nat, 1191781959706309946int, 1050029099593843325int, 1957588537553099809int);
    lemma_mpow_step(48806446nat, 1957588537553099809int, 1319786045772048689int, 1319786045772048689int);
    lemma_mpow_step(97612893nat, 1319786045772048689int, 1569523432868349241int, 426291785786573142int);
    lemma_mpow_step(195225786nat, 426291785786573142int, 1045216788358217664int, 1045216788358217664int);
    lemma_mpow_step(390451572nat, 1045216788358217664int, 869446166338448330int, 869446166338448330int);
    lemma_mpow_step(780903144nat, 869446166338448330int, 1661426788452037322int, 1661426788452037322int);
    lemma_mpow_step(1561806289nat, 1661426788452037322int, 634207868116289531int, 407261028165773137int);
    lemma_mpow_step(3123612578nat, 407261028165773137int, 1484581175454174194int, 1484581175454174194int);
    lemma_mpow_step(6247225157nat, 1484581175454174194int, 2168960119853873963int, 1852862121327742297int);
    lemma_mpow_step(12494450315nat, 1852862121327742297int, 1057875969039790290int, 2247922707053137514int);
    lemma_mpow_step(24988900631nat, 2247922707053137514int, 930546363793973722int, 2148413331385312400int);
    lemma_mpow_step(49977801262nat, 2148413331385312400int, 1719898029715368329int, 1719898029715368329int);
    lemma_mpow_step(99955602525nat, 1719898029715368329int, 164740845573129398int, 1483725267778399824int);
    lemma_mpow_step(199911205050nat, 1483725267778399824int, 681425966999145222int, 681425966999145222int);
    lemma_mpow_step(399822410100nat, 681425966999145222int, 2229618720952923778int, 2229618720952923778int);
    lemma_mpow_step(799644820200nat, 2229618720952923778int, 1722704865526871423int, 1722704865526871423int);
    lemma_mpow_step(1599289640401nat, 1722704865526871423int, 865513837887145537int, 2048052882046363506int);
    lemma_mpow_step(3198579280802nat, 2048052882046363506int, 1170260398115875869int, 1170260398115875869int);
    lemma_mpow_step(6397158561605nat, 1170260398115875869int, 1299507583536200899int, 1964920406565554243int);
    lemma_mpow_step(12794317123211nat, 1964920406565554243int, 1705609303857968170int, 849782993975085613int);
    lemma_mpow_step(25588634246423nat, 849782993975085613int, 1839630343493860081int, 1196875442075698418int);
    lemma_mpow_step(51177268492846nat, 1196875442075698418int, 620138466931819316int, 620138466931819316int);
    lemma_mpow_step(102354536985693nat, 620138466931819316int, 1602747699045734370int, 1655589634349822915int);
    lemma_mpow_step(204709073971386nat, 1655589634349822915int, 925417023639135397int, 925417023639135397int);
    lemma_mpow_step(409418147942772nat, 925417023639135397int, 106194394668126838int, 106194394668126838int);
    lemma_mpow_step(818836295885544nat, 106194394668126838int, 1476233550525144340int, 1476233550525144340int);
    lemma_mpow_step(1637672591771089nat, 1476233550525144340int, 1926849683788790792int, 2118148023774440774int);
    lemma_mpow_step(3275345183542178nat, 2118148023774440774int, 67019338146649427int, 67019338146649427int);
    lemma_mpow_step(6550690367084357nat, 67019338146649427int, 699004715764382611int, 498901381931523146int);
    lemma_mpow_step(13101380734168715nat, 498901381931523146int, 2009766598305176279int, 574387842453315891int);
    lemma_mpow_step(26202761468337431nat, 574387842453315891int, 2183201320541984352int, 73943537574132739int);
    lemma_mpow_step(52405522936674862nat, 73943537574132739int, 1642673409062649626int, 1642673409062649626int);
    lemma_mpow_step(104811045873349725nat, 1642673409062649626int, 449965209532203638int, 507811688195676949int);
    lemma_mpow_step(209622091746699450nat, 507811688195676949int, 2266698407988980144int, 2266698407988980144int);
    lemma_mpow(37, 209622091746699450nat, p());
}

/// `37^177372539170284150` modulo the prime, by repeated squaring.
proof fn lemma_generator_13()
    ensures
        !unit_power(177372539170284150nat),
{
    assert(mpow(37, 0nat, p()) == 1int);
    lemma_mpow_step(1nat, 1int, 1int, 37int);
    lemma_mpow_step(2nat, 37int, 1369int, 1369int);
    lemma_mpow_step(4nat, 1369int, 1874161int, 1874161int);
    lemma_mpow_step(9nat, 1874161int, 3512479453921int, 129961739795077int);
    lemma_mpow_step(19nat, 129961739795077int, 2130417461614381366int, 426783766466516208int);
    lemma_mpow_step(39nat, 426783766466516208int, 57684662309873168int, 2134332505465307216int);
    lemma_mpow_step(78nat, 2134332505465307216int, 1833824407774758982int, 1833824407774758982int);
    lemma_mpow_step(157nat, 1833824407774758982int, 739871488683129309int, 2010971979925150972int);
    lemma_mpow_step(315nat, 2010971979925150972int, 224577215945232048int, 1391827962332503923int);
    lemma_mpow_step(630nat, 1391827962332503923int, 2129910550479417964int, 2129910550479417964int);
    lemma_mpow_step(1260nat, 2129910550479417964int, 517453763117721126int, 517453763117721126int);
    lemma_mpow_step(2520nat, 517453763117721126int, 2092542480037908298int, 2092542480037908298int);
    lemma_mpow_step(5041nat, 2092542480037908298int, 1854558017682518052int, 1749199387056043345int);
    lemma_mpow_step(10082nat, 1749199387056043345int, 2116837273049637694int, 2116837273049637694int);
    lemma_mpow_step(20164nat, 2116837273049637694int, 1831752314570369949int, 1831752314570369949int);
    lemma_mpow_step(40329nat, 1831752314570369949int, 8709458998079521int, 322249982928942277int);
    lemma_mpow_step(80659nat, 322249982928942277int, 1982824422321415303int, 1883370340267853730int);
    lemma_mpow_step(161319nat, 1883370340267853730int, 882144136749076364int, 357530930724110154int);
    lemma_mpow_step(322638nat, 357530930724110154int, 1453471050645342166int, 1453471050645342166int);
    lemma_mpow_step(645277nat, 1453471050645342166int, 750660733472150637int, 104331027905246157int);
    lemma_mpow_step(1290555nat, 104331027905246157int, 1466209464674682318int, 1215360981048284893int);
    lemma_mpow_step(2581110nat, 1215360981048284893int, 1854278429927242186int, 1854278429927242186int);
    lemma_mpow_step(5162220nat, 1854278429927242186int, 1814386234248685992int, 1814386234248685992int);
    lemma_mpow_step(10324440nat, 1814386234248685992int, 52216996662813566int, 52216996662813566int);
    lemma_mpow_step(20648881nat, 52216996662813566int, 1940584116885489883int, 320479039138613190int);
    lemma_mpow_step(41297762nat, 320479039138613190int, 2186252600791618047int, 2186252600791618047int);
    lemma_mpow_step(82595524nat, 2186252600791618047int, 2140039573973225700int, 2140039573973225700int);
    lemma_mpow_step(165191049nat, 2140039573973225700int, 1454328279063811117int, 775757113446050456int);
    lemma_mpow_step(330382099nat, 775757113446050456int, 1370925972312223402int, 2301557782064692903int);
    lemma_mpow_step(660764199nat, 2301557782064692903int, 669367856311753120int, 1708180591397925930int);
    lemma_mpow_step(1321528398nat, 1708180591397925930int, 1474136660016468244int, 1474136660016468244int);
    lemma_mpow_step(2643056797nat, 1474136660016468244int, 115172854741951600int, 1955552616238515249int);
    lemma_mpow_step(5286113595nat, 1955552616238515249int, 1102274232081769540int, 1584815430392675813int);
    lemma_mpow_step(10572227190nat, 1584815430392675813int, 1313607248510892221int, 1313607248510892221int);
    lemma_mpow_step(21144454380nat, 1313607248510892221int, 1821121345429207896int, 1821121345429207896int);
    lemma_mpow_step(42288908760nat, 1821121345429207896int, 2006575309144750265int, 2006575309144750265int);
    lemma_mpow_step(84577817521nat, 2006575309144750265int, 1980870104625615899int, 1811060585523275782int);
    lemma_mpow_step(169155635042nat, 1811060585523275782int, 1008254015338213925int, 1008254015338213925int);
    lemma_mpow_step(338311270084nat, 1008254015338213925int, 2072409115555876515int, 2072409115555876515int);
    lemma_mpow_step(676622540169nat, 2072409115555876515int, 1295139406403608005int, 1803297852659617165int);
    lemma_mpow_step(1353245080339nat, 1803297852659617165int, 1113392390204407072int, 1996187280930264497int);
    lemma_mpow_step(2706490160679nat, 1996187280930264497int, 420286145524830221int, 1715529329136554471int);
    lemma_mpow_step(5412980321358nat, 1715529329136554471int, 251557387226495043int, 251557387226495043int);
    lemma_mpow_step(10825960642717nat, 251557387226495043int, 440852618562733113int, 170645822325267524int);
    lemma_mpow_step(21651921285435nat, 170645822325267524int, 1781108653403011241int, 1337415917927985289int);
    lemma_mpow_step(43303842570870nat, 1337415917927985289int, 1563811603622147650int, 1563811603622147650int);
    lemma_mpow_step(86607685141740nat, 1563811603622147650int, 281412780432912770int, 281412780432912770int);
    lemma_mpow_step(173215370283480nat, 281412780432912770int, 185707662480029622int, 185707662480029622int);
    lemma_mpow_step(346430740566961nat, 185707662480029622int, 690668956520251689int, 190478289898679032int);
    lemma_mpow_step(692861481133922nat, 190478289898679032int, 97310095717551342int, 97310095717551342int);
    lemma_mpow_step(1385722962267844nat, 97310095717551342int, 240770727365476191int, 240770727365476191int);
    lemma_mpow_step(2771445924535689nat, 240770727365476191int, 526643925770997255int, 1039081179817346827int);
    lemma_mpow_step(5542891849071379nat, 1039081179817346827int, 854194041693252178int, 1629220422872309223int);
    lemma_mpow_step(11085783698142759nat, 1629220422872309223int, 382107829943811237int, 302931652638852063int);
    lemma_mpow_step(22171567396285518nat, 302931652638852063int, 1609992928602734030int, 1609992928602734030int);
    lemma_mpow_step(44343134792571037nat, 1609992928602734030int, 1528888353854654134int, 1228636871493548134int);
    lemma_mpow_step(88686269585142075nat, 1228636871493548134int, 163708909703664719int, 1445543640608206701int);
    lemma_mpow_step(177372539170284150nat, 1445543640608206701int, 1032504562576723207int, 1032504562576723207int);
    lemma_mpow(37, 177372539170284150nat, p());
}

/// `37^74382032555280450` modulo the prime, by repeated squaring.
proof fn lemma_generator_31()
    ensures
        !unit_power(74382032555280450nat),
{
    assert(mpow(37, 0nat, p()) == 1int);
    lemma_mpow_step(1nat, 1int, 1int, 37int);
    lemma_mpow_step(2nat, 37int, 1369int, 1369int);
    lemma_mpow_step(4nat, 1369int, 1874161int, 1874161int);
    lemma_mpow_step(8nat, 1874161int, 3512479453921int, 3512479453921int);
    lemma_mpow_step(16nat, 3512479453921int, 2048012909902302799int, 2048012909902302799int);
    lemma_mpow_step(33nat, 2048012909902302799int, 307828676072022436int, 2166288977810054328int);
    lemma_mpow_step(66nat, 2166288977810054328int, 1527663442908431533int, 1527663442908431533int);
    lemma_mpow_step(132nat, 1527663442908431533int, 1697957044909405622int, 1697957044909405622int);
    lemma_mpow_step(264nat, 1697957044909405622int, 1770736616454408763int, 1770736616454408763int);
    lemma_mpow_step(528nat, 1770736616454408763int, 1841832041624780029int, 1841832041624780029int);
    lemma_mpow_step(1057nat, 1841832041624780029int, 2304901261937292351int, 2270998359986834751int);
    lemma_mpow_step(2114nat, 2270998359986834751int, 383777470768767572int, 383777470768767572int);
    lemma_mpow_step(4228nat, 383777470768767572int, 1247246905716300463int, 1247246905716300463int);
    lemma_mpow_step(8456nat, 1247246905716300463int, 531184808955283233int, 531184808955283233int);
    lemma_mpow_step(16912nat, 531184808955283233int, 1778766330295578444int, 1778766330295578444int);
    lemma_mpow_step(33825nat, 1778766330295578444int, 1687165140715410823int, 167348957700463774int);
    lemma_mpow_step(67650nat, 167348957700463774int, 105149161975553391int, 105149161975553391int);
    lemma_mpow_step(135300nat, 105149161975553391int, 1320681831012921122int, 1320681831012921122int);
    lemma_mpow_step(270600nat, 1320681831012921122int, 2141973794995425617int, 2141973794995425617int);
    lemma_mpow_step(541200nat, 2141973794995425617int, 1757027148018525181int, 1757027148018525181int);
    lemma_mpow_step(1082401nat, 1757027148018525181int, 2037266191873399188int, 1591872804477563524int);
    lemma_mpow_step(2164802nat, 1591872804477563524int, 207481386931969857int, 207481386931969857int);
    lemma_mpow_step(4329604nat, 207481386931969857int, 1293616430510614620int, 1293616430510614620int);
    lemma_mpow_step(8659208nat, 1293616430510614620int, 1381255431965279002int, 1381255431965279002int);
    lemma_mpow_step(17318416nat, 1381255431965279002int, 2060395795810129725int, 2060395795810129725int);
    lemma_mpow_step(34636833nat, 2060395795810129725int, 1022124227803601159int, 925108281314139667int);
    lemma_mpow_step(69273666nat, 925108281314139667int, 772502744357113388int, 772502744357113388int);
    lemma_mpow_step(138547332nat, 772502744357113388int, 415852372725457210int, 415852372725457210int);
    lemma_mpow_step(277094664nat, 415852372725457210int, 2154426754225061081int, 2154426754225061081int);
    lemma_mpow_step(554189328nat, 2154426754225061081int, 2031729985379159233int, 2031729985379159233int);
    lemma_mpow_step(1108378657nat, 2031729985379159233int, 1392628677732101418int, 798714873386485544int);
    lemma_mpow_step(2216757314nat, 798714873386485544int, 293109258917679546int, 293109258917679546int);
    lemma_mpow_step(4433514628nat, 293109258917679546int, 789645259658297330int, 789645259658297330int);
    lemma_mpow_step(8867029256nat, 789645259658297330int, 312537264855695216int, 312537264855695216int);
    lemma_mpow_step(17734058512nat, 312537264855695216int, 1068040130857115079int, 1068040130857115079int);
    lemma_mpow_step(35468117025nat, 1068040130857115079int, 782175898371493951int, 1270392129180948775int);
    lemma_mpow_step(70936234050nat, 1270392129180948775int, 1202692236257763325int, 1202692236257763325int);
    lemma_mpow_step(141872468100nat, 1202692236257763325int, 1760919366359934738int, 1760919366359934738int);
    lemma_mpow_step(283744936200nat, 1760919366359934738int, 1451836919962698950int, 1451836919962698950int);
    lemma_mpow_step(567489872400nat, 1451836919962698950int, 768265459749896282int, 768265459749896282int);
    lemma_mpow_step(1134979744801nat, 768265459749896282int, 534472805984557253int, 1328749747719066753int);
    lemma_mpow_step(2269959489602nat, 1328749747719066753int, 344447306660207322int, 344447306660207322int);
    lemma_mpow_step(4539918979204nat, 344447306660207322int, 1895351187208706988int, 1895351187208706988int);
    lemma_mpow_step(9079837958408nat, 1895351187208706988int, 1564954140566490745int, 1564954140566490745int);
    lemma_mpow_step(18159675916816nat, 1564954140566490745int, 193353082106618050int, 193353082106618050int);
    lemma_mpow_step(36319351833633nat, 193353082106618050int, 2147130019475669228int, 1045148407334167102int);
    lemma_mpow_step(72638703667266nat, 1045148407334167102int, 789523400171074996int, 789523400171074996int);
    lemma_mpow_step(145277407334532nat, 789523400171074996int, 1919384983088160729int, 1919384983088160729int);
    lemma_mpow_step(290554814669064nat, 1919384983088160729int, 1944991342902115162int, 1944991342902115162int);
    lemma_mpow_step(581109629338128nat, 1944991342902115162int, 1296149603466438272int, 1296149603466438272int);
    lemma_mpow_step(1162219258676257nat, 1296149603466438272int, 1659685318838696390int, 1456438557475723704int);
    lemma_mpow_step(2324438517352514nat, 1456438557475723704int, 1874007843370815560int, 1874007843370815560int);
    lemma_mpow_step(4648877034705028nat, 1874007843370815560int, 646757903979545203int, 646757903979545203int);
    lemma_mpow_step(9297754069410056nat, 646757903979545203int, 1177197917893952599int, 1177197917893952599int);
    lemma_mpow_step(18595508138820112nat, 1177197917893952599int, 946354789294685549int, 946354789294685549int);
    lemma_mpow_step(37191016277640225nat, 946354789294685549int, 1071865898664126753int, 459707093939892694int);
    lemma_mpow_step(74382032555280450nat, 459707093939892694int, 484083891529811867int, 484083891529811867int);
    lemma_mpow(37, 74382032555280450nat, p());
}

/// `37^56240073395455950` modulo the prime, by repeated squaring.
proof fn lemma_generator_41()
    ensures
        !unit_power(56240073395455950nat),
{
    assert(mpow(37, 0nat, p()) == 1int);
    lemma_mpow_step(1nat, 1int, 1int, 37int);
    lemma_mpow_step(3nat, 37int, 1369int, 50653int);
    lemma_mpow_step(6nat, 50653int, 2565726409int, 2565726409int);
    lemma_mpow_step(12nat, 2565726409int, 1971265987412647379int, 1971265987412647379int);
    lemma_mpow_step(24nat, 1971265987412647379int, 398663858489942875int, 398663858489942875int);
    lemma_mpow_step(49nat, 398663858489942875int, 2215071879289046716int, 1253154211215440207int);
    lemma_mpow_step(99nat, 1253154211215440207int, 1639602719609543274int, 713382385997058412int);
    lemma_mpow_step(199nat, 713382385997058412int, 1966532553541382000int, 1280571195406621519int);
    lemma_mpow_step(399nat, 1280571195406621519int, 12099819320160791int, 447693314845949267int);
    lemma_mpow_step(799nat, 447693314845949267int, 938324182502471494int, 130349614386036013int);
    lemma_mpow_step(1598nat, 130349614386036013int, 1928414337313258967int, 1928414337313258967int);
    lemma_mpow_step(3196nat, 1928414337313258967int, 219284513808312053int, 219284513808312053int);
    lemma_mpow_step(6393nat, 219284513808312053int, 1291021167463962885int, 1650923011892747725int);
    lemma_mpow_step(12787nat, 1650923011892747725int, 2107099435159481065int, 1869859796848899022int);
    lemma_mpow_step(25575nat, 1869859796848899022int, 918080696831756191int, 1687183653783263753int);
    lemma_mpow_step(51150nat, 1687183653783263753int, 1694490217473059922int, 1694490217473059922int);
    lemma_mpow_step(102300nat, 1694490217473059922int, 757528119712041489int, 757528119712041489int);
    lemma_mpow_step(204600nat, 757528119712041489int, 1760593197219293682int, 1760593197219293682int);
    lemma_mpow_step(409200nat, 1760593197219293682int, 1892778723120112520int, 1892778723120112520int);
    lemma_mpow_step(818400nat, 1892778723120112520int, 75927683510047834int, 75927683510047834int);
    lemma_mpow_step(1636801nat, 75927683510047834int, 312852320058815140int, 46320796107690425int);
    lemma_mpow_step(3273603nat, 46320796107690425int, 986799260131016387int, 1923927486642197054int);
    lemma_mpow_step(6547206nat, 1923927486642197054int, 279978600320785492int, 279978600320785492int);
    lemma_mpow_step(13094412nat, 279978600320785492int, 942568288739213058int, 942568288739213058int);
    lemma_mpow_step(26188824nat, 942568288739213058int, 1848670390243138195int, 1848670390243138195int);
    lemma_mpow_step(52377649nat, 1848670390243138195int, 1360721916486634300int, 1924007716517896129int);
    lemma_mpow_step(104755299nat, 1924007716517896129int, 943743325340732985int, 330857899401711180int);
    lemma_mpow_step(209510599nat, 330857899401711180int, 1391078177086166779int, 741346349486903901int);
    lemma_mpow_step(419021199nat, 741346349486903901int, 2034654221331429384int, 1495229894424680776int);
    lemma_mpow_step(838042399nat, 1495229894424680776int, 199845120428943543int, 476740428229829238int);
    lemma_mpow_step(1676084798nat, 476740428229829238int, 1868386856157844665int, 1868386856157844665int);
    lemma_mpow_step(3352169596nat, 1868386856157844665int, 676129879129388771int, 676129879129388771int);
    lemma_mpow_step(6704339193nat, 676129879129388771int, 301289528087054266int, 1924340502366232038int);
    lemma_mpow_step(13408678387nat, 1924340502366232038int, 82711373951352329int, 754477826986342222int);
    lemma_mpow_step(26817356775nat, 754477826986342222int, 1972318921518235451int, 1494666810550199206int);
    lemma_mpow_step(53634713550nat, 1494666810550199206int, 408742850539445589int, 408742850539445589int);
    lemma_mpow_step(107269427100nat, 408742850539445589int, 2249397665653771420int, 2249397665653771420int);
    lemma_mpow_step(214538854200nat, 2249397665653771420int, 586375320340701312int, 586375320340701312int);
    lemma_mpow_step(429077708400nat, 586375320340701312int, 66689224696771530int, 66689224696771530int);
    lemma_mpow_step(858155416800nat, 66689224696771530int, 1975295031131489547int, 1975295031131489547int);
    lemma_mpow_step(1716310833601nat, 1975295031131489547int, 2091482734121398823int, 1292041858439856068int);
    lemma_mpow_step(3432621667203nat, 1292041858439856068int, 2452888155720862int, 90756861761671894int);
    lemma_mpow_step(6865243334406nat, 90756861761671894int, 565597554396461301int, 565597554396461301int);
    lemma_mpow_step(13730486668812nat, 565597554396461301int, 473806973239797212int, 473806973239797212int);
    lemma_mpow_step(27460973337624nat, 473806973239797212int, 1168128104625737366int, 1168128104625737366int);
    lemma_mpow_step(54921946675249nat, 1168128104625737366int, 938738680278863257int, 145686032112531244int);
    lemma_mpow_step(109843893350499nat, 145686032112531244int, 942238535133714801int, 275180661742038372int);
    lemma_mpow_step(219687786700999nat, 275180661742038372int, 66165941233478045int, 142296816424993714int);
    lemma_mpow_step(439375573401999nat, 142296816424993714int, 2135671873448942888int, 621197004345292522int);
    lemma_mpow_step(878751146803999nat, 621197004345292522int, 350918326110174962int, 1454763020008003839int);
    lemma_mpow_step(1757502293607998nat, 1454763020008003839int, 411279861511608367int, 411279861511608367int);
    lemma_mpow_step(3515004587215996nat, 411279861511608367int, 496148108913520374int, 496148108913520374int);
    lemma_mpow_step(7030009174431993nat, 496148108913520374int, 186357683530623173int, 2283548272205669499int);
    lemma_mpow_step(14060018348863987nat, 2283548272205669499int, 242041421137168897int, 2038003554434167336int);
    lemma_mpow_step(28120036697727975nat, 2038003554434167336int, 2294843863708109604int, 1898874625507073112int);
    lemma_mpow_step(56240073395455950nat, 1898874625507073112int, 1562651311446036838int, 1562651311446036838int);
    lemma_mpow(37, 56240073395455950nat, p());
}

/// `37^37800705069076950` modulo the prime, by repeated squaring.
proof fn lemma_generator_61()
    ensures
        !unit_power(37800705069076950nat),
{
    assert(mpow(37, 0nat, p()) == 1int);
    lemma_mpow_step(1nat, 1int, 1int, 37int);
    lemma_mpow_step(2nat, 37int, 1369int, 1369int);
    lemma_mpow_step(4nat, 1369int, 1874161int, 1874161int);
    lemma_mpow_step(8nat, 1874161int, 3512479453921int, 3512479453921int);
    lemma_mpow_step(16nat, 3512479453921int, 2048012909902302799int, 2048012909902302799int);
    lemma_mpow_step(33nat, 2048012909902302799int, 307828676072022436int, 2166288977810054328int);
    lemma_mpow_step(67nat, 2166288977810054328int, 1527663442908431533int, 1183315166483311897int);
    lemma_mpow_step(134nat, 1183315166483311897int, 213441193572793910int, 213441193572793910int);
    lemma_mpow_step(268nat, 213441193572793910int, 156151158795493260int, 156151158795493260int);
    lemma_mpow_step(537nat, 156151158795493260int, 337469090215226705int, 957141291894918330int);
    lemma_mpow_step(1074nat, 957141291894918330int, 1679601158863909361int, 1679601158863909361int);
    lemma_mpow_step(2148nat, 1679601158863909361int, 1754931456696949085int, 1754931456696949085int);
    lemma_mpow_step(4297nat, 1754931456696949085int, 11091614259266113int, 410389727592846181int);
    lemma_mpow_step(8594nat, 410389727592846181int, 988107137094789728int, 988107137094789728int);
    lemma_mpow_step(17189nat, 988107137094789728int, 2303545237530223897int, 2220825456925301953int);
    lemma_mpow_step(34379nat, 2220825456925301953int, 1491830750862738763int, 2163348570006373358int);
    lemma_mpow_step(68759nat, 2163348570006373358int, 1509929107023900158int, 527144738755651022int);
    lemma_mpow_step(137518nat, 527144738755651022int, 2110217161857988208int, 2110217161857988208int);
    lemma_mpow_step(275036nat, 2110217161857988208int, 1918972764837995116int, 1918972764837995116int);
    lemma_mpow_step(550072nat, 1918972764837995116int, 687323875882474714int, 687323875882474714int);
    lemma_mpow_step(1100145nat, 687323875882474714int, 1012909518406294996int, 584164033613811636int);
    lemma_mpow_step(2200290nat, 584164033613811636int, 188538334095871618int, 188538334095871618int);
    lemma_mpow_step(4400581nat, 188538334095871618int, 380615165795904940int, 247703079166319074int);
    lemma_mpow_step(8801162nat, 247703079166319074int, 413753822477507423int, 413753822477507423int);
    lemma_mpow_step(17602324nat, 413753822477507423int, 1885629141519779004int, 1885629141519779004int);
    lemma_mpow_step(35204649nat, 1885629141519779004int, 838390994411668718int, 1044507673453721203int);
    lemma_mpow_step(70409299nat, 1044507673453721203int, 1994306856998128172int, 2377414092535932int);
    lemma_mpow_step(140818599nat, 2377414092535932int, 484918656472713273int, 1801089224994533444int);
    lemma_mpow_step(281637199nat, 1801089224994533444int, 401838896445248013int, 1032981113192012775int);
    lemma_mpow_step(563274399nat, 1032981113192012775int, 2145786469228203320int, 995437048177928506int);
    lemma_mpow_step(1126548798nat, 995437048177928506int, 729273931602840556int, 729273931602840556int);
    lemma_mpow_step(2253097597nat, 729273931602840556int, 1254251367207015998int, 290440402385712906int);
    lemma_mpow_step(4506195195nat, 290440402385712906int, 1630730429880275170int, 385107666014138564int);
    lemma_mpow_step(9012390391nat, 385107666014138564int, 508381657672854734int, 363377260186073550int);
    lemma_mpow_step(18024780783nat, 363377260186073550int, 2148690977786222977int, 1102903864824655815int);
    lemma_mpow_step(36049561566nat, 1102903864824655815int, 1841344606183256171int, 1841344606183256171int);
    lemma_mpow_step(72099123132nat, 1841344606183256171int, 911184203840234984int, 911184203840234984int);
    lemma_mpow_step(144198246265nat, 911184203840234984int, 1816628066692975331int, 345791200442962668int);
    lemma_mpow_step(288396492531nat, 345791200442962668int, 472915264694348578int, 1356963729195039729int);
    lemma_mpow_step(576792985062nat, 1356963729195039729int, 1609429910656894110int, 1609429910656894110int);
    lemma_mpow_step(1153585970125nat, 1609429910656894110int, 1818680666057426881int, 421737376927670018int);
    lemma_mpow_step(2307171940251nat, 421737376927670018int, 904419833059525676int, 1181731694210734698int);
    lemma_mpow_step(4614343880502nat, 1181731694210734698int, 466962266829811585int, 466962266829811585int);
    lemma_mpow_step(9228687761005nat, 466962266829811585int, 870930871794499007int, 2248483136618441896int);
    lemma_mpow_step(18457375522010nat, 2248483136618441896int, 2150962671850484898int, 2150962671850484898int);
    lemma_mpow_step(36914751044020nat, 2150962671850484898int, 812941661938990639int, 812941661938990639int);
    lemma_mpow_step(73829502088040nat, 812941661938990639int, 1987069784265602190int, 1987069784265602190int);
    lemma_mpow_step(147659004176081nat, 1987069784265602190int, 273856093066443209int, 909303406603622929int);
    lemma_mpow_step(295318008352163nat, 909303406603622929int, 168394063935577802int, 1618894347188990772int);
    lemma_mpow_step(590636016704327nat, 1618894347188990772int, 384756267755744319int, 400923851680376097int);
    lemma_mpow_step(1181272033408654nat, 400923851680376097int, 1296737315491201034int, 1296737315491201034int);
    lemma_mpow_step(2362544066817309nat, 1296737315491201034int, 634153882857938143int, 405263573606771781int);
    lemma_mpow_step(4725088133634618nat, 405263573606771781int, 2194542735180687571int, 2194542735180687571int);
    lemma_mpow_step(9450176267269237nat, 2194542735180687571int, 273343360504852317int, 890332301824759925int);
    lemma_mpow_step(18900352534538475nat, 890332301824759925int, 2243279490065898412int, 2296835809958952959int);
    lemma_mpow_step(37800705069076950nat, 2296835809958952959int, 35184372088832int, 35184372088832int);
    lemma_mpow(37, 37800705069076950nat, p());
}

/// `37^15270483504726450` modulo the prime, by repeated squaring.
proof fn lemma_generator_151()
    ensures
        !unit_power(15270483504726450nat),
{
    assert(mpow(37, 0nat, p()) == 1int);
    lemma_mpow_step(1nat, 1int, 1int, 37int);
    lemma_mpow_step(3nat, 37int, 1369int, 50653int);
    lemma_mpow_step(6nat, 50653int, 2565726409int, 2565726409int);
    lemma_mpow_step(13nat, 2565726409int, 1971265987412647379int, 1455708248643440542int);
    lemma_mpow_step(27nat, 1455708248643440542int, 1591872098300023439int, 1253192406758518468int);
    lemma_mpow_step(54nat, 1253192406758518468int, 1091349452027953358int, 1091349452027953358int);
    lemma_mpow_step(108nat, 1091349452027953358int, 997920042730791870int, 997920042730791870int);
    lemma_mpow_step(217nat, 997920042730791870int, 1524813797073000448int, 1077878270572361752int);
    lemma_mpow_step(434nat, 1077878270572361752int, 385245501143562693int, 385245501143562693int);
    lemma_mpow_step(868nat, 385245501143562693int, 376923711229537248int, 376923711229537248int);
    lemma_mpow_step(1736nat, 376923711229537248int, 335101052591312049int, 335101052591312049int);
    lemma_mpow_step(3472nat, 335101052591312049int, 37728920620822630int, 37728920620822630int);
    lemma_mpow_step(6944nat, 37728920620822630int, 2228552861915488798int, 2228552861915488798int);
    lemma_mpow_step(13888nat, 2228552861915488798int, 921623718492395228int, 921623718492395228int);
    lemma_mpow_step(27776nat, 921623718492395228int, 672305038495397967int, 672305038495397967int);
    lemma_mpow_step(55553nat, 672305038495397967int, 661548713037185952int, 1418872290238940714int);
    lemma_mpow_step(111107nat, 1418872290238940714int, 792956055345414585int, 1669257937216012233int);
    lemma_mpow_step(222214nat, 1669257937216012233int, 2074582478826140785int, 2074582478826140785int);
    lemma_mpow_step(444429nat, 2074582478826140785int, 1377965448165270081int, 256175379413726075int);
    lemma_mpow_step(888859nat, 256175379413726075int, 1878093009457295519int, 314151073509115673int);
    lemma_mpow_step(1777718nat, 314151073509115673int, 1843270311929566165int, 1843270311929566165int);
    lemma_mpow_step(3555436nat, 1843270311929566165int, 1255962243698527563int, 1255962243698527563int);
    lemma_mpow_step(7110873nat, 1255962243698527563int, 1845970149159417866int, 1431448251701336463int);
    lemma_mpow_step(14221746nat, 1431448251701336463int, 1720169769625558843int, 1720169769625558843int);
    lemma_mpow_step(28443492nat, 1720169769625558843int, 1967027654544662291int, 1967027654544662291int);
    lemma_mpow_step(56886984nat, 1967027654544662291int, 487123809281246237int, 487123809281246237int);
    lemma_mpow_step(113773968nat, 487123809281246237int, 2110190743308402835int, 2110190743308402835int);
    lemma_mpow_step(227547936nat, 2110190743308402835int, 404490060077652709int, 404490060077652709int);
    lemma_mpow_step(455095872nat, 404490060077652709int, 438048697937724375int, 438048697937724375int);
    lemma_mpow_step(910191744nat, 438048697937724375int, 2252932632060201894int, 2252932632060201894int);
    lemma_mpow_step(1820383489nat, 2252932632060201894int, 121388490398939286int, 2185531135547059631int);
    lemma_mpow_step(3640766979nat, 2185531135547059631int, 1539764145608301930int, 1631041166378516586int);
    lemma_mpow_step(7281533958nat, 1631041166378516586int, 1013860923015364884int, 1013860923015364884int);
    lemma_mpow_step(14563067917nat, 1013860923015364884int, 992908198188264012int, 2149958194760359179int);
    lemma_mpow_step(29126135835nat, 2149958194760359179int, 1632918730181454753int, 466074777157783135int);
    lemma_mpow_step(58252271670nat, 466074777157783135int, 536697731232903470int, 536697731232903470int);
    lemma_mpow_step(116504543340nat, 536697731232903470int, 1448669616528059213int, 1448669616528059213int);
    lemma_mpow_step(233009086681nat, 1448669616528059213int, 1934499936572201962int, 95364367546960113int);
    lemma_mpow_step(466018173362nat, 95364367546960113int, 1105655107239133538int, 1105655107239133538int);
    lemma_mpow_step(932036346724nat, 1105655107239133538int, 953472430199435278int, 953472430199435278int);
    lemma_mpow_step(1864072693448nat, 953472430199435278int, 753745908267135817int, 753745908267135817int);
    lemma_mpow_step(3728145386896nat, 753745908267135817int, 86416242946414448int, 86416242946414448int);
    lemma_mpow_step(7456290773792nat, 86416242946414448int, 615400116022059587int, 615400116022059587int);
    lemma_mpow_step(14912581547584nat, 615400116022059587int, 2112679117412952014int, 2112679117412952014int);
    lemma_mpow_step(29825163095168nat, 2112679117412952014int, 1240380924626345293int, 1240380924626345293int);
    lemma_mpow_step(59650326190337nat, 1240380924626345293int, 447274462318055904int, 408254041272210791int);
    lemma_mpow_step(119300652380675nat, 408254041272210791int, 1650662953844446270int, 1122611052688469264int);
    lemma_mpow_step(238601304761350nat, 1122611052688469264int, 1511142429613439500int, 1511142429613439500int);
    lemma_mpow_step(477202609522701nat, 1511142429613439500int, 993489980366104775int, 2171484135340467410int);
    lemma_mpow_step(954405219045403nat, 2171484135340467410int, 2032329206759249881int, 1409204355254039165int);
    lemma_mpow_step(1908810438090806nat, 1409204355254039165int, 1627033447147933315int, 1627033447147933315int);
    lemma_mpow_step(3817620876181612nat, 1627033447147933315int, 904830826465624872int, 904830826465624872int);
    lemma_mpow_step(7635241752363225nat, 904830826465624872int, 224175538612959044int, 1376965901038402775int);
    lemma_mpow_step(15270483504726450nat, 1376965901038402775int, 1433721343585656393int, 1433721343585656393int);
    lemma_mpow(37, 15270483504726450nat, p());
}

/// `37^6966293079195450` modulo the prime, by repeated squaring.
proof fn lemma_generator_331()
    ensures
        !unit_power(6966293079195450nat),
{
    assert(mpow(37, 0nat, p()) == 1int);
    lemma_mpow_step(1nat, 1int, 1int, 37int);
    lemma_mpow_step(3nat, 37int, 1369int, 50653int);
    lemma_mpow_step(6nat, 50653int, 2565726409int, 2565726409int);
    lemma_mpow_step(12nat, 2565726409int, 1971265987412647379int, 1971265987412647379int);
    lemma_mpow_step(24nat, 1971265987412647379int, 398663858489942875int, 398663858489942875int);
    lemma_mpow_step(49nat, 398663858489942875int, 2215071879289046716int, 1253154211215440207int);
    lemma_mpow_step(98nat, 1253154211215440207int, 1639602719609543274int, 1639602719609543274int);
    lemma_mpow_step(197nat, 1639602719609543274int, 137866922059788599int, 489390097784790261int);
    lemma_mpow_step(395nat, 489390097784790261int, 2036989315151889071int, 1581628365781689195int);
    lemma_mpow_step(791nat, 1581628365781689195int, 432525971906723295int, 2168402905266598209int);
    lemma_mpow_step(1583nat, 2168402905266598209int, 492052673202035038int, 2065047843979438749int);
    lemma_mpow_step(3167nat, 2065047843979438749int, 1228212918072097187int, 1632860793607410850int);
    lemma_mpow_step(6335nat, 1632860793607410850int, 835459587746375761int, 936045626837881794int);
    lemma_mpow_step(12671nat, 936045626837881794int, 1558259013723622184int, 9508277431672033int);
    lemma_mpow_step(25343nat, 9508277431672033int, 1700609532382816938int, 664791449394490029int);
    lemma_mpow_step(50686nat, 664791449394490029int, 487236098161560180int, 487236098161560180int);
    lemma_mpow_step(101372nat, 487236098161560180int, 397443731981868493int, 397443731981868493int);
    lemma_mpow_step(202745nat, 397443731981868493int, 573824257960312935int, 478910461608333036int);
    lemma_mpow_step(405491nat, 478910461608333036int, 2021676394862485226int, 1015050315073746930int);
    lemma_mpow_step(810983nat, 1015050315073746930int, 1938622727352771974int, 247907626428050557int);
    lemma_mpow_step(1621966nat, 247907626428050557int, 787350629361550336int, 787350629361550336int);
    lemma_mpow_step(3243933nat, 787350629361550336int, 1098064852146858324int, 1429068372800960821int);
    lemma_mpow_step(6487866nat, 1429068372800960821int, 887286010314584401int, 887286010314584401int);
    lemma_mpow_step(12975732nat, 887286010314584401int, 835686323253738562int, 835686323253738562int);
    lemma_mpow_step(25951464nat, 835686323253738562int, 1478640314050531428int, 1478640314050531428int);
    lemma_mpow_step(51902928nat, 1478640314050531428int, 1079313284874010789int, 1079313284874010789int);
    lemma_mpow_step(103805856nat, 1079313284874010789int, 1719990106134480839int, 1719990106134480839int);
    lemma_mpow_step(207611712nat, 1719990106134480839int, 496051684216611343int, 496051684216611343int);
    lemma_mpow_step(415223424nat, 496051684216611343int, 1813308835624495303int, 1813308835624495303int);
    lemma_mpow_step(830446848nat, 1813308835624495303int, 1981502825351848235int, 1981502825351848235int);
    lemma_mpow_step(1660893697nat, 1981502825351848235int, 1709575434784390868int, 996529838252725439int);
    lemma_mpow_step(3321787395nat, 996529838252725439int, 2061460950979186030int, 181235882177982727int);
    lemma_mpow_step(6643574790nat, 181235882177982727int, 1226371963323455181int, 1226371963323455181int);
    lemma_mpow_step(13287149580nat, 1226371963323455181int, 409494360453244594int, 409494360453244594int);
    lemma_mpow_step(26574299160nat, 409494360453244594int, 1743686887285837804int, 1743686887285837804int);
    lemma_mpow_step(53148598321nat, 1743686887285837804int, 637391249652429027int, 525046145002934489int);
    lemma_mpow_step(106297196642nat, 525046145002934489int, 1651396226218083413int, 1651396226218083413int);
    lemma_mpow_step(212594393285nat, 1651396226218083413int, 1777631661411056057int, 1208767214225643481int);
    lemma_mpow_step(425188786571nat, 1208767214225643481int, 966309870903081651int, 1165820085208611822int);
    lemma_mpow_step(850377573143nat, 1165820085208611822int, 1501703478979709582int, 222796501120599710int);
    lemma_mpow_step(1700755146287nat, 222796501120599710int, 1057525928262300886int, 2234971198286029566int);
    lemma_mpow_step(3401510292575nat, 2234971198286029566int, 448670037292649769int, 459890315332183796int);
    lemma_mpow_step(6803020585151nat, 459890315332183796int, 408465262810217873int, 1278156668695897595int);
    lemma_mpow_step(13606041170303nat, 1278156668695897595int, 740105086372736400int, 2019615094440613339int);
    lemma_mpow_step(27212082340607nat, 2019615094440613339int, 195470546606888782int, 314881196813803081int);
    lemma_mpow_step(54424164681214nat, 314881196813803081int, 854694431541353119int, 854694431541353119int);
    lemma_mpow_step(108848329362428nat, 854694431541353119int, 693625213112729168int, 693625213112729168int);
    lemma_mpow_step(217696658724857nat, 693625213112729168int, 454515724839615829int, 676180754569928016int);
    lemma_mpow_step(435393317449715nat, 676180754569928016int, 799173804941660862int, 1899314672277124482int);
    lemma_mpow_step(870786634899431nat, 1899314672277124482int, 350701235722089049int, 1446730675648825058int);
    lemma_mpow_step(1741573269798862nat, 1446730675648825058int, 1073986377252543548int, 1073986377252543548int);
    lemma_mpow_step(3483146539597725nat, 1073986377252543548int, 404955538311483045int, 1148296862242708959int);
    lemma_mpow_step(6966293079195450nat, 1148296862242708959int, 185945230422323302int, 185945230422323302int);
    lemma_mpow(37, 6966293079195450nat, p());
}

/// `37^1745528394559950` modulo the prime, by repeated squaring.
proof fn lemma_generator_1321()
    ensures
        !unit_power(1745528394559950nat),
{
    assert(mpow(37, 0nat, p()) == 1int);
    lemma_mpow_step(1nat, 1int, 1int, 37int);
    lemma_mpow_step(3nat, 37int, 1369int, 50653int);
    lemma_mpow_step(6nat, 50653int, 2565726409int, 2565726409int);
    lemma_mpow_step(12nat, 2565726409int, 1971265987412647379int, 1971265987412647379int);
    lemma_mpow_step(24nat, 1971265987412647379int, 398663858489942875int, 398663858489942875int);
    lemma_mpow_step(49nat, 398663858489942875int, 2215071879289046716int, 1253154211215440207int);
    lemma_mpow_step(99nat, 1253154211215440207int, 1639602719609543274int, 713382385997058412int);
    lemma_mpow_step(198nat, 713382385997058412int, 1966532553541382000int, 1966532553541382000int);
    lemma_mpow_step(396nat, 1966532553541382000int, 874174303580151440int, 874174303580151440int);
    lemma_mpow_step(793nat, 874174303580151440int, 1832245181598539399int, 923624451948833184int);
    lemma_mpow_step(1587nat, 923624451948833184int, 912014129712253884int, 1462720670361678394int);
    lemma_mpow_step(3175nat, 1462720670361678394int, 2203235068579322809int, 815192214955655648int);
    lemma_mpow_step(6350nat, 815192214955655648int, 621497757265893580int, 621497757265893580int);
    lemma_mpow_step(12700nat, 621497757265893580int, 2198386731040081295int, 2198386731040081295int);
    lemma_mpow_step(25400nat, 2198386731040081295int, 53350045692349326int, 53350045692349326int);
    lemma_mpow_step(50801nat, 53350045692349326int, 248191778544624530int, 2265566778510025757int);
    lemma_mpow_step(101603nat, 2265566778510025757int, 872017225178126253int, 2288678211812649998int);
    lemma_mpow_step(203206nat, 2288678211812649998int, 673425718396071659int, 673425718396071659int);
    lemma_mpow_step(406412nat, 673425718396071659int, 2292940126354470532int, 2292940126354470532int);
    lemma_mpow_step(812824nat, 2292940126354470532int, 404481710757480823int, 404481710757480823int);
    lemma_mpow_step(1625649nat, 404481710757480823int, 308885850223052471int, 2205404421398165623int);
    lemma_mpow_step(3251299nat, 2205404421398165623int, 423106449274076938int, 1819880567858683000int);
    lemma_mpow_step(6502599nat, 1819880567858683000int, 1460128991403726442int, 990383470022917481int);
    lemma_mpow_step(13005199nat, 990383470022917481int, 295513172737795134int, 1710615354443644154int);
    lemma_mpow_step(26010399nat, 1710615354443644154int, 477502873901018207int, 1526705269841816002int);
    lemma_mpow_step(52020799nat, 1526705269841816002int, 957130343698516968int, 826177578639718551int);
    lemma_mpow_step(104041599nat, 826177578639718551int, 2047157228657078927int, 1957841165473713867int);
    lemma_mpow_step(208083199nat, 1957841165473713867int, 2103733633296658394int, 1745325127924460195int);
    lemma_mpow_step(416166399nat, 1745325127924460195int, 353182214942414347int, 1538526906800861084int);
    lemma_mpow_step(832332799nat, 1538526906800861084int, 1917198997327974422int, 1761072624724235084int);
    lemma_mpow_step(1664665598nat, 1761072624724235084int, 63253708693872176int, 63253708693872176int);
    lemma_mpow_step(3329331196nat, 63253708693872176int, 1708521526375058149int, 1708521526375058149int);
    lemma_mpow_step(6658662393nat, 1708521526375058149int, 2018571113548778380int, 900154906466593628int);
    lemma_mpow_step(13317324787nat, 900154906466593628int, 1884445169465771695int, 549180993822734185int);
    lemma_mpow_step(26634649575nat, 549180993822734185int, 1397375195472281549int, 974336029773150391int);
    lemma_mpow_step(53269299150nat, 974336029773150391int, 767531949375742427int, 767531949375742427int);
    lemma_mpow_step(106538598300nat, 767531949375742427int, 1028174308127840095int, 1028174308127840095int);
    lemma_mpow_step(213077196601nat, 1028174308127840095int, 905150235048058351int, 1208756567786443673int);
    lemma_mpow_step(426154393203nat, 1208756567786443673int, 174961008152684800int, 1861871283221949698int);
    lemma_mpow_step(852308786406nat, 1861871283221949698int, 218890034787544464int, 218890034787544464int);
    lemma_mpow_step(1704617572812nat, 218890034787544464int, 1780674643128744138int, 1780674643128744138int);
    lemma_mpow_step(3409235145624nat, 1780674643128744138int, 1153594686673240925int, 1153594686673240925int);
    lemma_mpow_step(6818470291249nat, 1153594686673240925int, 2138876094696336624int, 739753190498860754int);
    lemma_mpow_step(13636940582499nat, 739753190498860754int, 2171438377690093701int, 1944557661267872603int);
    lemma_mpow_step(27273881164999nat, 1944557661267872603int, 2233897094935049485int, 1949687190117542660int);
    lemma_mpow_step(54547762329998nat, 1949687190117542660int, 206225659005950175int, 206225659005950175int);
    lemma_mpow_step(109095524659996nat, 206225659005950175int, 2108306817830658923int, 2108306817830658923int);
    lemma_mpow_step(218191049319993nat, 2108306817830658923int, 2055979049512228902int, 2284248537114262942int);
    lemma_mpow_step(436382098639987nat, 2284248537114262942int, 408703062019812224int, 1286955239450888582int);
    lemma_mpow_step(872764197279975nat, 1286955239450888582int, 1474531018892595881int, 1523258487111086724int);
    lemma_mpow_step(1745528394559950nat, 1523258487111086724int, 30210013857155493int, 30210013857155493int);
    lemma_mpow(37, 1745528394559950nat, p());
}

/// `a + b` is a unit power when `a` and `b` are.
proof fn lemma_unit_add(a: nat, b: nat)
    requires
        unit_power(a),
        unit_power(b),
    ensures
        unit_power(a + b),
{
    lemma_pow_adds(37, a, b);
    lemma_mul_mod_noop_general(pow(37, a), pow(37, b), p());
}

/// Every multiple of a unit power is one.
proof fn lemma_unit_mul(a: nat, k: nat)
    requires
        unit_power(a),
    ensures
        unit_power(a * k),
    decreases k,
{
    if k == 0 {
        lemma_pow0(37);
        assert(a * k == 0);
    } else {
        lemma_unit_mul(a, (k - 1) as nat);
        assert(a * k == a * (k - 1) + a) by (nonlinear_arith)
            requires
                k >= 1,
        ;
        lemma_unit_add((a * (k - 1)) as nat, a);
    }
}

/// `a - b` is a unit power when `a` and `b` are.
proof fn lemma_unit_sub(a: nat, b: nat)
    requires
        b <= a,
        unit_power(a),
        unit_power(b),
    ensures
        unit_power((a - b) as nat),
{
    let d = (a - b) as nat;
    lemma_pow_adds(37, d, b);
    assert(d + b == a);
    lemma_mul_mod_noop_right(pow(37, d), pow(37, b), p());
}

/// `a mod b` is a unit power when `a` and `b` are.
proof fn lemma_unit_mod(a: nat, b: nat)
    requires
        b > 0,
        unit_power(a),
        unit_power(b),
    ensures
        unit_power(a % b),
{
    lemma_fundamental_div_mod(a as int, b as int);
    let k = a / b;
    lemma_unit_mul(b, k);
    assert(b * k <= a);
    assert(a - b * k == a % b);
    lemma_unit_sub(a, b * k);
}

/// `q` has no divisor strictly between 1 and itself.
pub open spec fn irreducible(q: int) -> bool {
    q >= 2 && forall|d: int| 2 <= d < q ==> #[trigger] (q % d) != 0
}

/// No number in `2..=k` divides `q`.
pub open spec fn no_divisor_upto(q: int, k: int) -> bool
    decreases k,
{
    if k < 2 {
        true
    } else {
        q % k != 0 && no_divisor_upto(q, k - 1)
    }
}

proof fn lemma_no_divisor_upto(q: int, k: int, d: int)
    requires
        no_divisor_upto(q, k),
        2 <= d <= k,
    ensures
        q % d != 0,
    decreases k,
{
    if d < k {
        lemma_no_divisor_upto(q, k - 1, d);
    }
}

/// Trial division up to `s` with `(s + 1)^2 > q` shows `q` irreducible.
proof fn lemma_irreducible(q: int, s: int)
    requires
        q >= 2,
        s >= 1,
        no_divisor_upto(q, s),
        (s + 1) * (s + 1) > q,
    ensures
        irreducible(q),
{
    assert forall|d: int| 2 <= d < q implies #[trigger] (q % d) != 0 by {
        if q % d == 0 {
            if d <= s {
                lemma_no_divisor_upto(q, s, d);
            } else {
                lemma_fundamental_div_mod(q, d);
                let c = q / d;
                assert(q == d * c);
                assert(c >= 2) by (nonlinear_arith)
                    requires
                        q == d * c,
                        2 <= d < q,
                ;
                lemma_mod_multiples_basic(d, c);
                assert(q % c == 0) by {
                    assert(d * c == q);
                    lemma_mul_is_commutative(d, c);
                }
                if c <= s {
                    lemma_no_divisor_upto(q, s, c);
                } else {
                    assert(d * c >= (s + 1) * (s + 1)) by (nonlinear_arith)
                        requires
                            d >= s + 1,
                            c >= s + 1,
                            s >= 1,
                    ;
                }
            }
        }
    }
}

/// The greatest common divisor, by Euclid's algorithm.
pub open spec fn gcd(a: nat, b: nat) -> nat
    decreases b,
{
    if b == 0 {
        a
    } else {
        gcd(b, a % b)
    }
}

/// `x` is a multiple of `d`, with the quotient.
proof fn lemma_dvd(x: int, d: int, k: int)
    requires
        d > 0,
        x == d * k,
    ensures
        x % d == 0,
        x / d == k,
{
    lemma_mul_is_commutative(d, k);
    lemma_mod_multiples_basic(k, d);
    lemma_fundamental_div_mod(x, d);
    assert(d * (x / d) == d * k);
    lemma_mul_equality_converse(d, x / d, k);
}

/// Euclid's algorithm yields a common divisor that is a combination of its inputs.
proof fn lemma_gcd(a: nat, b: nat) -> (uv: (int, int))
    requires
        a > 0 || b > 0,
    ensures
        gcd(a, b) > 0,
        (a as int) % (gcd(a, b) as int) == 0,
        (b as int) % (gcd(a, b) as int) == 0,
        uv.0 * a + uv.1 * b == gcd(a, b),
    decreases b,
{
    if b == 0 {
        lemma_mod_self_0(a as int);
        assert(0int % (a as int) == 0) by {
            lemma_small_mod(0, a);
        }
        (1, 0)
    } else {
        let r = a % b;
        let (u, v) = lemma_gcd(b, r);
        let g = gcd(a, b);
        assert(g == gcd(b, r));
        lemma_fundamental_div_mod(a as int, b as int);
        let t = a / b;
        assert(a == b * t + r);
        lemma_fundamental_div_mod(b as int, g as int);
        lemma_fundamental_div_mod(r as int, g as int);
        let kb = (b as int) / (g as int);
        let kr = (r as int) / (g as int);
        assert(b == g * kb);
        assert(r == g * kr);
        assert(a == g * (kb * t + kr)) by (nonlinear_arith)
            requires
                a == b * t + r,
                b == g * kb,
                r == g * kr,
        ;
        lemma_dvd(a as int, g as int, kb * t + kr);
        assert(v * a + (u - v * t) * b == u * b + v * r) by (nonlinear_arith)
            requires
                a == b * t + r,
        ;
        (v, u - v * t)
    }
}

/// Euclid's lemma: an irreducible `q` dividing `a * b` divides `a` or `b`.
proof fn lemma_euclid(q: int, a: int, b: int)
    requires
        irreducible(q),
        a >= 0,
        b >= 0,
        (a * b) % q == 0,
        a % q != 0,
    ensures
        b % q == 0,
{
    let r = a % q;
    lemma_fundamental_div_mod(a, q);
    let (u, v) = lemma_gcd(q as nat, r as nat);
    let g = gcd(q as nat, r as nat);
    assert(g <= r) by {
        lemma_fundamental_div_mod(r, g as int);
        let k = r / (g as int);
        assert(r == g * k);
        assert(k >= 1) by (nonlinear_arith)
            requires
                r == g * k,
                r > 0,
                g > 0,
        ;
        assert(g * k >= g) by (nonlinear_arith)
            requires
                k >= 1,
                g > 0,
        ;
    }
    assert(g == 1) by {
        if g != 1 {
            assert(2 <= g < q);
            assert(q % (g as int) != 0);
        }
    }
    // u * q + v * r == 1 gives v * a == 1 - (u - v * (a / q)) * q
    let t = a / q;
    assert(a == q * t + r);
    lemma_fundamental_div_mod(a * b, q);
    let m = (a * b) / q;
    assert(a * b == q * m);
    let ab = a * b;
    assert(b == (u * q) * b + (v * r) * b) by (nonlinear_arith)
        requires
            u * q + v * r == 1,
    ;
    assert((v * r) * b == v * ab - v * (q * (t * b))) by (nonlinear_arith)
        requires
            a == q * t + r,
            ab == a * b,
    ;
    assert(v * ab == v * (q * m));
    assert(q * (u * b) == (u * q) * b) by (nonlinear_arith);
    assert(q * (v * m) == v * (q * m)) by (nonlinear_arith);
    assert(q * (v * (t * b)) == v * (q * (t * b))) by (nonlinear_arith);
    assert(q * (u * b + v * m - v * (t * b)) == q * (u * b) + q * (v * m) - q * (v * (t * b)))
        by (nonlinear_arith);
    assert(b == q * (u * b + v * m - v * (t * b)));
    assert(u * b + v * m - v * (t * b) == u * b + v * m - v * t * b) by (nonlinear_arith);
    lemma_dvd(b, q, u * b + v * m - v * t * b);
}

/// The product of a list of numbers.
pub open spec fn product(l: Seq<int>) -> int
    decreases l.len(),
{
    if l.len() == 0 {
        1
    } else {
        l[0] * product(l.drop_first())
    }
}

/// The prime factors of `p - 1`, with repetition.
pub open spec fn order_factors() -> Seq<int> {
    seq![2, 3, 3, 5, 5, 7, 11, 13, 31, 41, 61, 151, 331, 1321]
}

/// A product of positive numbers is positive and a multiple of each of them.
proof fn lemma_product_divides(l: Seq<int>, i: int)
    requires
        forall|j: int| 0 <= j < l.len() ==> #[trigger] l[j] >= 1,
        0 <= i < l.len(),
    ensures
        product(l) >= 1,
        product(l) % l[i] == 0,
    decreases l.len(),
{
    let r = l.drop_first();
    let m = product(r);
    if l.len() == 1 {
        assert(r.len() == 0);
        assert(product(l) == l[0] * 1);
        lemma_dvd(product(l), l[0], 1);
    } else {
        lemma_product_divides(r, 0);
        assert(l[0] * m >= 1) by (nonlinear_arith)
            requires
                l[0] >= 1,
                m >= 1,
        ;
        if i == 0 {
            lemma_dvd(product(l), l[0], m);
        } else {
            lemma_product_divides(r, i - 1);
            assert(r[i - 1] == l[i]);
            lemma_fundamental_div_mod(m, l[i]);
            let k = m / l[i];
            assert(product(l) == l[i] * (l[0] * k)) by (nonlinear_arith)
                requires
                    product(l) == l[0] * m,
                    m == l[i] * k,
            ;
            lemma_dvd(product(l), l[i], l[0] * k);
        }
    }
}

/// A proper divisor `e` of a product of irreducible numbers divides the product with one
/// factor left out.
proof fn lemma_proper_divisor(l: Seq<int>, e: int) -> (i: int)
    requires
        forall|j: int| 0 <= j < l.len() ==> irreducible(#[trigger] l[j]),
        0 < e < product(l),
        product(l) % e == 0,
    ensures
        0 <= i < l.len(),
        (product(l) / l[i]) % e == 0,
    decreases l.len(),
{
    if l.len() == 0 {
        assert(product(l) == 1);
        assert(false);
        0
    } else {
        let q = l[0];
        let r = l.drop_first();
        let m = product(r);
        assert(forall|j: int| 0 <= j < r.len() ==> #[trigger] r[j] == l[j + 1]);
        if r.len() > 0 {
            lemma_product_divides(r, 0);
        }
        assert(m >= 1);
        assert(product(l) == q * m);
        lemma_dvd(product(l), q, m);
        lemma_fundamental_div_mod(product(l), e);
        let t = product(l) / e;
        assert(q * m == e * t);
        if e % q != 0 {
            // q divides e * t but not e, so it divides t and e divides m
            assert((e * t) % q == 0);
            assert(t >= 0) by (nonlinear_arith)
                requires
                    q * m == e * t,
                    q >= 2,
                    m >= 1,
                    e > 0,
            ;
            lemma_euclid(q, e, t);
            lemma_fundamental_div_mod(t, q);
            let t2 = t / q;
            assert(m == e * t2) by (nonlinear_arith)
                requires
                    q * m == e * t,
                    t == q * t2,
                    q >= 2,
            ;
            lemma_dvd(m, e, t2);
            0
        } else {
            lemma_fundamental_div_mod(e, q);
            let e2 = e / q;
            assert(e == q * e2);
            assert(m == e2 * t) by (nonlinear_arith)
                requires
                    q * m == e * t,
                    e == q * e2,
                    q >= 2,
            ;
            assert(0 < e2 < m) by (nonlinear_arith)
                requires
                    e == q * e2,
                    0 < e,
                    e < q * m,
                    q >= 2,
            ;
            lemma_dvd(m, e2, t);
            let j = lemma_proper_divisor(r, e2);
            lemma_product_divides(r, j);
            lemma_fundamental_div_mod(m, r[j]);
            let k = m / r[j];
            lemma_fundamental_div_mod(k, e2);
            let k2 = k / e2;
            assert(k % e2 == 0);
            assert(product(l) == r[j] * (q * k)) by (nonlinear_arith)
                requires
                    product(l) == q * m,
                    m == r[j] * k,
            ;
            lemma_dvd(product(l), r[j], q * k);
            assert(q * k == e * k2) by (nonlinear_arith)
                requires
                    k == e2 * k2,
                    e == q * e2,
            ;
            lemma_dvd(q * k, e, k2);
            assert(l[j + 1] == r[j]);
            j + 1
        }
    }
}

/// The factors multiply to `p - 1`.
proof fn lemma_order_factors_product()
    ensures
        product(order_factors()) == 2305843009213693950int,
{
    let l = order_factors();
    assert(l.subrange(14, 14) =~= Seq::<int>::empty());
    assert(product(l.subrange(14, 14)) == 1);
    assert(l.subrange(13, 14).drop_first() =~= l.subrange(14, 14));
    assert(l.subrange(13, 14)[0] == 1321);
    assert(product(l.subrange(13, 14)) == 1321int);
    assert(l.subrange(12, 14).drop_first() =~= l.subrange(13, 14));
    assert(l.subrange(12, 14)[0] == 331);
    assert(product(l.subrange(12, 14)) == 437251int);
    assert(l.subrange(11, 14).drop_first() =~= l.subrange(12, 14));
    assert(l.subrange(11, 14)[0] == 151);
    assert(product(l.subrange(11, 14)) == 66024901int);
    assert(l.subrange(10, 14).drop_first() =~= l.subrange(11, 14));
    assert(l.subrange(10, 14)[0] == 61);
    assert(product(l.subrange(10, 14)) == 4027518961int);
    assert(l.subrange(9, 14).drop_first() =~= l.subrange(10, 14));
    assert(l.subrange(9, 14)[0] == 41);
    assert(product(l.subrange(9, 14)) == 165128277401int);
    assert(l.subrange(8, 14).drop_first() =~= l.subrange(9, 14));
    assert(l.subrange(8, 14)[0] == 31);
    assert(product(l.subrange(8, 14)) == 5118976599431int);
    assert(l.subrange(7, 14).drop_first() =~= l.subrange(8, 14));
    assert(l.subrange(7, 14)[0] == 13);
    assert(product(l.subrange(7, 14)) == 66546695792603int);
    assert(l.subrange(6, 14).drop_first() =~= l.subrange(7, 14));
    assert(l.subrange(6, 14)[0] == 11);
    assert(product(l.subrange(6, 14)) == 732013653718633int);
    assert(l.subrange(5, 14).drop_first() =~= l.subrange(6, 14));
    assert(l.subrange(5, 14)[0] == 7);
    assert(product(l.subrange(5, 14)) == 5124095576030431int);
    assert(l.subrange(4, 14).drop_first() =~= l.subrange(5, 14));
    assert(l.subrange(4, 14)[0] == 5);
    assert(product(l.subrange(4, 14)) == 25620477880152155int);
    assert(l.subrange(3, 14).drop_first() =~= l.subrange(4, 14));
    assert(l.subrange(3, 14)[0] == 5);
    assert(product(l.subrange(3, 14)) == 128102389400760775int);
    assert(l.subrange(2, 14).drop_first() =~= l.subrange(3, 14));
    assert(l.subrange(2, 14)[0] == 3);
    assert(product(l.subrange(2, 14)) == 384307168202282325int);
    assert(l.subrange(1, 14).drop_first() =~= l.subrange(2, 14));
    assert(l.subrange(1, 14)[0] == 3);
    assert(product(l.subrange(1, 14)) == 1152921504606846975int);
    assert(l.subrange(0, 14).drop_first() =~= l.subrange(1, 14));
    assert(l.subrange(0, 14)[0] == 2);
    assert(product(l.subrange(0, 14)) == 2305843009213693950int);
    assert(l.subrange(0, 14) =~= l);
}

proof fn lemma_irreducible_2()
    ensures
        irreducible(2),
{
    assert(no_divisor_upto(2, 1));
    lemma_irreducible(2, 1);
}

proof fn lemma_irreducible_3()
    ensures
        irreducible(3),
{
    assert(no_divisor_upto(3, 1));
    lemma_irreducible(3, 1);
}

proof fn lemma_irreducible_5()
    ensures
        irreducible(5),
{
    assert(no_divisor_upto(5, 1));
    assert(no_divisor_upto(5, 2));
    lemma_irreducible(5, 2);
}

proof fn lemma_irreducible_7()
    ensures
        irreducible(7),
{
    assert(no_divisor_upto(7, 1));
    assert(no_divisor_upto(7, 2));
    lemma_irreducible(7, 2);
}

proof fn lemma_irreducible_11()
    ensures
        irreducible(11),
{
    assert(no_divisor_upto(11, 1));
    assert(no_divisor_upto(11, 2));
    assert(no_divisor_upto(11, 3));
    lemma_irreducible(11, 3);
}

proof fn lemma_irreducible_13()
    ensures
        irreducible(13),
{
    assert(no_divisor_upto(13, 1));
    assert(no_divisor_upto(13, 2));
    assert(no_divisor_upto(13, 3));
    lemma_irreducible(13, 3);
}

proof fn lemma_irreducible_31()
    ensures
        irreducible(31),
{
    assert(no_divisor_upto(31, 1));
    assert(no_divisor_upto(31, 2));
    assert(no_divisor_upto(31, 3));
    assert(no_divisor_upto(31, 4));
    assert(no_divisor_upto(31, 5));
    lemma_irreducible(31, 5);
}

proof fn lemma_irreducible_41()
    ensures
        irreducible(41),
{
    assert(no_divisor_upto(41, 1));
    assert(no_divisor_upto(41, 2));
    assert(no_divisor_upto(41, 3));
    assert(no_divisor_upto(41, 4));
    assert(no_divisor_upto(41, 5));
    assert(no_divisor_upto(41, 6));
    lemma_irreducible(41, 6);
}

proof fn lemma_irreducible_61()
    ensures
        irreducible(61),
{
    assert(no_divisor_upto(61, 1));
    assert(no_divisor_upto(61, 2));
    assert(no_divisor_upto(61, 3));
    assert(no_divisor_upto(61, 4));
    assert(no_divisor_upto(61, 5));
    assert(no_divisor_upto(61, 6));
    assert(no_divisor_upto(61, 7));
    lemma_irreducible(61, 7);
}

proof fn lemma_irreducible_151()
    ensures
        irreducible(151),
{
    assert(no_divisor_upto(151, 1));
    assert(no_divisor_upto(151, 2));
    assert(no_divisor_upto(151, 3));
    assert(no_divisor_upto(151, 4));
    assert(no_divisor_upto(151, 5));
    assert(no_divisor_upto(151, 6));
    assert(no_divisor_upto(151, 7));
    assert(no_divisor_upto(151, 8));
    assert(no_divisor_upto(151, 9));
    assert(no_divisor_upto(151, 10));
    assert(no_divisor_upto(151, 11));
    assert(no_divisor_upto(151, 12));
    lemma_irreducible(151, 12);
}

proof fn lemma_irreducible_331()
    ensures
        irreducible(331),
{
    assert(no_divisor_upto(331, 1));
    assert(no_divisor_upto(331, 2));
    assert(no_divisor_upto(331, 3));
    assert(no_divisor_upto(331, 4));
    assert(no_divisor_upto(331, 5));
    assert(no_divisor_upto(331, 6));
    assert(no_divisor_upto(331, 7));
    assert(no_divisor_upto(331, 8));
    assert(no_divisor_upto(331, 9));
    assert(no_divisor_upto(331, 10));
    assert(no_divisor_upto(331, 11));
    assert(no_divisor_upto(331, 12));
    assert(no_divisor_upto(331, 13));
    assert(no_divisor_upto(331, 14));
    assert(no_divisor_upto(331, 15));
    assert(no_divisor_upto(331, 16));
    assert(no_divisor_upto(331, 17));
    assert(no_divisor_upto(331, 18));
    lemma_irreducible(331, 18);
}

proof fn lemma_irreducible_1321()
    ensures
        irreducible(1321),
{
    assert(no_divisor_upto(1321, 1));
    assert(no_divisor_upto(1321, 2));
    assert(no_divisor_upto(1321, 3));
    assert(no_divisor_upto(1321, 4));
    assert(no_divisor_upto(1321, 5));
    assert(no_divisor_upto(1321, 6));
    assert(no_divisor_upto(1321, 7));
    assert(no_divisor_upto(1321, 8));
    assert(no_divisor_upto(1321, 9));
    assert(no_divisor_upto(1321, 10));
    assert(no_divisor_upto(1321, 11));
    assert(no_divisor_upto(1321, 12));
    assert(no_divisor_upto(1321, 13));
    assert(no_divisor_upto(1321, 14));
    assert(no_divisor_upto(1321, 15));
    assert(no_divisor_upto(1321, 16));
    assert(no_divisor_upto(1321, 17));
    assert(no_divisor_upto(1321, 18));
    assert(no_divisor_upto(1321, 19));
    assert(no_divisor_upto(1321, 20));
    assert(no_divisor_upto(1321, 21));
    assert(no_divisor_upto(1321, 22));
    assert(no_divisor_upto(1321, 23));
    assert(no_divisor_upto(1321, 24));
    assert(no_divisor_upto(1321, 25));
    assert(no_divisor_upto(1321, 26));
    assert(no_divisor_upto(1321, 27));
    assert(no_divisor_upto(1321, 28));
    assert(no_divisor_upto(1321, 29));
    assert(no_divisor_upto(1321, 30));
    assert(no_divisor_upto(1321, 31));
    assert(no_divisor_upto(1321, 32));
    assert(no_divisor_upto(1321, 33));
    assert(no_divisor_upto(1321, 34));
    assert(no_divisor_upto(1321, 35));
    assert(no_divisor_upto(1321, 36));
    lemma_irreducible(1321, 36);
}

/// Every listed factor is irreducible.
proof fn lemma_order_factors_irreducible()
    ensures
        forall|j: int| 0 <= j < order_factors().len() ==> irreducible(#[trigger] order_factors()[j]),
{
    lemma_irreducible_2();
    lemma_irreducible_3();
    lemma_irreducible_5();
    lemma_irreducible_7();
    lemma_irreducible_11();
    lemma_irreducible_13();
    lemma_irreducible_31();
    lemma_irreducible_41();
    lemma_irreducible_61();
    lemma_irreducible_151();
    lemma_irreducible_331();
    lemma_irreducible_1321();
}

/// 37 has order `p - 1`: no smaller positive power of it is one.
proof fn lemma_order(d: nat)
    requires
        0 < d < 2305843009213693950,
    ensures
        !unit_power(d),
    decreases d,
{
    lemma_generator_full();
    if unit_power(d) {
        if (2305843009213693950int) % (d as int) == 0 {
            lemma_order_factors_product();
            lemma_order_factors_irreducible();
            let i = lemma_proper_divisor(order_factors(), d as int);
            let q = order_factors()[i];
            let e = (2305843009213693950int) / q;
            lemma_fundamental_div_mod(e, d as int);
            let k = e / (d as int);
            assert(e >= 0);
            assert(k >= 0) by (nonlinear_arith)
                requires
                    e == d * k,
                    e >= 0,
                    d > 0,
            ;
            lemma_unit_mul(d, k as nat);
            assert(d * (k as nat) == e);
            lemma_generator_2();
            lemma_generator_3();
            lemma_generator_5();
            lemma_generator_7();
            lemma_generator_11();
            lemma_generator_13();
            lemma_generator_31();
            lemma_generator_41();
            lemma_generator_61();
            lemma_generator_151();
            lemma_generator_331();
            lemma_generator_1321();
            assert(q == 2 || q == 3 || q == 5 || q == 7 || q == 11 || q == 13 || q == 31 || q == 41
                || q == 61 || q == 151 || q == 331 || q == 1321) by {
                assert(0 <= i < 14);
            }
            if q == 2 {
                assert(e == 1152921504606846975);
            }
            if q == 3 {
                assert(e == 768614336404564650);
            }
            if q == 5 {
                assert(e == 461168601842738790);
            }
            if q == 7 {
                assert(e == 329406144173384850);
            }
            if q == 11 {
                assert(e == 209622091746699450);
            }
            if q == 13 {
                assert(e == 177372539170284150);
            }
            if q == 31 {
                assert(e == 74382032555280450);
            }
            if q == 41 {
                assert(e == 56240073395455950);
            }
            if q == 61 {
                assert(e == 37800705069076950);
            }
            if q == 151 {
                assert(e == 15270483504726450);
            }
            if q == 331 {
                assert(e == 6966293079195450);
            }
            if q == 1321 {
                assert(e == 1745528394559950);
            }
        } else {
            lemma_unit_mod(2305843009213693950nat, d);
            lemma_order((2305843009213693950nat % d) as nat);
        }
    }
}

/// The powers of 37 up to `p - 1` are not multiples of the prime.
proof fn lemma_power_nonzero(k: nat)
    requires
        k <= 2305843009213693950,
    ensures
        pow(37, k) % p() != 0,
{
    lemma_generator_full();
    let rest = (2305843009213693950 - k) as nat;
    lemma_pow_adds(37, k, rest);
    assert(k + rest == 2305843009213693950);
    lemma_mul_mod_noop_left(pow(37, k), pow(37, rest), p());
    if pow(37, k) % p() == 0 {
        assert(0 * pow(37, rest) == 0);
    }
}

/// `37^k mod p`.
pub open spec fn generator_power(k: int) -> int {
    pow(37, k as nat) % p()
}

/// Distinct exponents below `p - 1` give distinct powers of 37.
proof fn lemma_power_injective(k1: nat, k2: nat)
    requires
        k1 < k2 < 2305843009213693950,
    ensures
        pow(37, k1) % p() != pow(37, k2) % p(),
{
    if pow(37, k1) % p() == pow(37, k2) % p() {
        lemma_generator_full();
        let rest = (2305843009213693950 - k1) as nat;
        lemma_pow_adds(37, k2, rest);
        lemma_pow_adds(37, k1, rest);
        assert(k1 + rest == 2305843009213693950);
        lemma_mul_mod_noop_left(pow(37, k2), pow(37, rest), p());
        lemma_mul_mod_noop_left(pow(37, k1), pow(37, rest), p());
        assert(unit_power(k2 + rest));
        lemma_unit_sub(k2 + rest, 2305843009213693950nat);
        assert((k2 + rest - 2305843009213693950) as nat == (k2 - k1) as nat);
        lemma_order((k2 - k1) as nat);
    }
}

/// Every nonzero residue is a power of 37.
proof fn lemma_every_residue_is_power(a: int)
    requires
        0 < a < p(),
    ensures
        exists|k: int| 0 <= k < 2305843009213693950 && #[trigger] generator_power(k) == a,
{
    let dom = vstd::set_lib::set_int_range(0, 2305843009213693950);
    let f = |k: int| generator_power(k);
    let img = dom.map(f);
    vstd::set_lib::lemma_int_range(0, 2305843009213693950);
    assert(vstd::relations::injective_on(f, dom)) by {
        assert forall|x1: int, x2: int|
            dom.contains(x1) && dom.contains(x2) && #[trigger] f(x1) == #[trigger] f(x2) implies x1 == x2 by {
            if x1 < x2 {
                lemma_power_injective(x1 as nat, x2 as nat);
            } else if x2 < x1 {
                lemma_power_injective(x2 as nat, x1 as nat);
            }
        }
    }
    vstd::set_lib::lemma_map_size(dom, img, f);
    let target = vstd::set_lib::set_int_range(1, p());
    vstd::set_lib::lemma_int_range(1, p());
    assert(img.subset_of(target)) by {
        assert forall|y: int| img.contains(y) implies target.contains(y) by {
            let k = choose|k: int| dom.contains(k) && y == f(k);
            lemma_power_nonzero(k as nat);
        }
    }
    vstd::set_lib::lemma_subset_equality(img, target);
    assert(target.contains(a));
    assert(img.contains(a));
    let k = choose|k: int| dom.contains(k) && a == f(k);
    assert(generator_power(k) == a);
}

/// Fermat's little theorem for the field's prime: `a^(p-1) = 1` for every nonzero residue.
pub proof fn lemma_fermat(a: int)
    requires
        0 < a < p(),
    ensures
        pow(a, (p() - 1) as nat) % p() == 1,
{
    lemma_every_residue_is_power(a);
    let k = choose|k: int| 0 <= k < 2305843009213693950 && #[trigger] generator_power(k) == a;
    let kn = k as nat;
    let n = 2305843009213693950nat;
    assert((p() - 1) as nat == n);
    lemma_pow_mod_noop(pow(37, kn), n, p());
    lemma_pow_multiplies(37, kn, n);
    lemma_pow_multiplies(37, n, kn);
    lemma_mul_is_commutative(kn as int, n as int);
    lemma_generator_full();
    lemma_pow_mod_noop(pow(37, n), kn, p());
    lemma1_pow(kn);
}

} // verus!
